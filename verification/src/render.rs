//! Rendering a request: which backend runs on what, which targets a URL may not reach, and
//! what the outcomes mean.
use crate::ip::{dotted, ip, ints, parse_ip, Ip, IpView};
use crate::json::{json_text, Json};
use crate::pdf::{options_of, pdf_options, PdfOptions};
use crate::request::{Backend, RenderError, RenderRequest};
use crate::text::{
    ends_with, has_suffix, join, join_texts, lower, lowered, opt_text, same, slice_text, texts,
    to_chars,
};
use vstd::prelude::*;

verus! {

// -- targets ------------------------------------------------------------------------------
/// A host without the brackets around it.
pub open spec fn strip_open(h: Seq<char>) -> Seq<char>
    decreases h.len(),
{
    if h.len() > 0 && h[0] == '[' {
        strip_open(h.drop_first())
    } else {
        h
    }
}

/// A host without closing brackets at its end.
pub open spec fn strip_close(h: Seq<char>) -> Seq<char>
    decreases h.len(),
{
    if h.len() > 0 && h.last() == ']' {
        strip_close(h.drop_last())
    } else {
        h
    }
}

/// Names that stand for this machine or a private network.
pub open spec fn internal_name(h: Seq<char>) -> bool {
    ||| h == "localhost"@
    ||| ends_with(h, ".localhost"@)
    ||| ends_with(h, ".local"@)
    ||| ends_with(h, ".internal"@)
}

/// Loopback, private, link-local and unspecified addresses.
pub open spec fn internal_ip(a: IpView) -> bool {
    match a {
        IpView::V4(a, b, c, d) => {
            ||| a == 127
            ||| a == 10
            ||| (a == 172 && 16 <= b <= 31)
            ||| (a == 192 && b == 168)
            ||| (a == 169 && b == 254)
            ||| (a == 0 && b == 0 && c == 0 && d == 0)
        },
        IpView::V6(g) => {
            ||| g == seq![0int, 0, 0, 0, 0, 0, 0, 1]
            ||| g == seq![0int, 0, 0, 0, 0, 0, 0, 0]
            ||| 0xfe80 <= g[0] <= 0xfebf
            ||| 0xfc00 <= g[0] <= 0xfdff
        },
    }
}

/// A host that a render may not reach.
pub open spec fn blocked_host(host: Seq<char>) -> bool {
    let h = strip_close(strip_open(host));
    internal_name(h) || match ip(h) {
        Some(a) => internal_ip(a),
        None => false,
    }
}

fn bare_host(host: &str) -> (res: String)
    ensures
        res@ == strip_close(strip_open(host@)),
{
    let c = to_chars(host);
    let mut lo: usize = 0;
    assert(c@.skip(0) =~= c@);
    while lo < c.len() && c[lo] == '['
        invariant
            0 <= lo <= c@.len(),
            strip_open(c@) == strip_open(c@.skip(lo as int)),
        decreases c@.len() - lo,
    {
        assert(c@.skip(lo as int)[0] == c@[lo as int]);
        assert(c@.skip(lo as int).drop_first() =~= c@.skip(lo + 1));
        lo = lo + 1;
    }
    assert(lo < c@.len() ==> c@.skip(lo as int)[0] == c@[lo as int]);
    let ghost opened = c@.skip(lo as int);
    assert(strip_open(c@) == opened);
    let mut hi: usize = c.len();
    assert(c@.subrange(lo as int, hi as int) =~= opened);
    while hi > lo && c[hi - 1] == ']'
        invariant
            lo <= hi <= c@.len(),
            strip_close(opened) == strip_close(c@.subrange(lo as int, hi as int)),
        decreases hi,
    {
        assert(c@.subrange(lo as int, hi as int).last() == c@[hi - 1]);
        assert(c@.subrange(lo as int, hi as int).drop_last() =~= c@.subrange(lo as int, hi - 1));
        hi = hi - 1;
    }
    assert(hi > lo ==> c@.subrange(lo as int, hi as int).last() == c@[hi - 1]);
    slice_text(c.as_slice(), lo, hi)
}

fn is_internal_ip(a: &Ip) -> (res: bool)
    requires
        a.wf(),
    ensures
        res == internal_ip(a@),
{
    match a {
        Ip::V4(a, b, c, d) => *a == 127 || *a == 10 || (*a == 172 && 16 <= *b && *b <= 31) || (*a
            == 192 && *b == 168) || (*a == 169 && *b == 254) || (*a == 0 && *b == 0 && *c == 0 && *d
            == 0),
        Ip::V6(g) => {
            let high = g[0] == 0 && g[1] == 0 && g[2] == 0 && g[3] == 0 && g[4] == 0 && g[5] == 0
                && g[6] == 0;
            let small = high && (g[7] == 0 || g[7] == 1);
            proof {
                let one = seq![0int, 0, 0, 0, 0, 0, 0, 1];
                let zero = seq![0int, 0, 0, 0, 0, 0, 0, 0];
                let v = ints(g@);
                assert(v[0] == g@[0] && v[1] == g@[1] && v[2] == g@[2] && v[3] == g@[3] && v[4]
                    == g@[4] && v[5] == g@[5] && v[6] == g@[6] && v[7] == g@[7]);
                if small {
                    if g@[7] == 0 {
                        assert(v =~= zero);
                    } else {
                        assert(v =~= one);
                    }
                }
            }
            small || (0xfe80 <= g[0] && g[0] <= 0xfebf) || (0xfc00 <= g[0] && g[0] <= 0xfdff)
        },
    }
}

/// Whether a host names this machine or a private network: such targets are refused, since
/// the rendered document would carry their content to the caller. Names that merely resolve
/// to a private address are not recognised.
pub fn is_blocked_host(host: &str) -> (res: bool)
    ensures
        res == blocked_host(host@),
{
    let h = bare_host(host);
    let c = to_chars(h.as_str());
    if same(h.as_str(), "localhost") || has_suffix(c.as_slice(), ".localhost") || has_suffix(
        c.as_slice(),
        ".local",
    ) || has_suffix(c.as_slice(), ".internal") {
        return true;
    }
    match parse_ip(h.as_str()) {
        Some(a) => is_internal_ip(&a),
        None => false,
    }
}

/// A parsed URL: its scheme and its host.
pub struct ParsedUrl {
    pub scheme: String,
    pub host: Option<String>,
}

/// The scheme and the host of a URL, where it is one.
pub uninterp spec fn url_parts(url: Seq<char>) -> Option<(Seq<char>, Option<Seq<char>>)>;

/// The model of a parsed URL.
pub open spec fn parsed_view(p: Option<ParsedUrl>) -> Option<(Seq<char>, Option<Seq<char>>)> {
    match p {
        Some(p) => Some((p.scheme@, opt_text(p.host))),
        None => None,
    }
}

/// `url::Url::parse` with the URL's `scheme` and `host_str`, named [`url_parts`]; `None` where
/// parsing fails.
#[verifier::external_body]
fn parse_url(url: &str) -> (res: Option<ParsedUrl>)
    ensures
        parsed_view(res) == url_parts(url@),
{
    url::Url::parse(url).ok().map(
        |u| ParsedUrl {
            scheme: u.scheme().to_string(),
            host: u.host_str().map(|h| h.to_string()),
        },
    )
}

/// The verdict on a parsed URL: `None` when it may be rendered, else why not.
pub open spec fn target_error(
    url: Seq<char>,
    parts: Option<(Seq<char>, Option<Seq<char>>)>,
) -> Option<Seq<char>> {
    match parts {
        None => Some("invalid url: "@ + url),
        Some(p) => if p.0 != "http"@ && p.0 != "https"@ {
            Some("only http(s) urls are allowed (got \""@ + p.0 + ":\")"@)
        } else {
            let host = lower(
                match p.1 {
                    Some(h) => h,
                    None => Seq::empty(),
                },
            );
            if blocked_host(host) {
                Some(
                    "navigation to internal/loopback/link-local address \""@ + host
                        + "\" is blocked (set KITE_PDF_ALLOW_PRIVATE_IPS=1 for trusted networks)"@,
                )
            } else {
                None
            }
        },
    }
}

/// Whether a result is the given verdict.
pub open spec fn is_verdict(res: Result<(), RenderError>, error: Option<Seq<char>>) -> bool {
    match error {
        None => res is Ok,
        Some(e) => res is Err && res->Err_0 is BadRequest && res->Err_0.text() == e,
    }
}

/// Judges a URL by its parts.
pub fn check_target(url: &str, parts: Option<ParsedUrl>) -> (res: Result<(), RenderError>)
    ensures
        is_verdict(res, target_error(url@, parsed_view(parts))),
        match parts {
            Some(p) => match target_error(url@, Some((p.scheme@, opt_text(p.host)))) {
                Some(e) => res is Err && res->Err_0 is BadRequest && res->Err_0.text() == e,
                None => res is Ok,
            },
            None => res is Err && res->Err_0 is BadRequest && res->Err_0.text() == "invalid url: "@
                + url@,
        },
{
    let p = match parts {
        Some(p) => p,
        None => {
            let mut e = "invalid url: ".to_owned();
            e.append(url);
            return Err(RenderError::bad_request(e));
        },
    };
    if !same(p.scheme.as_str(), "http") && !same(p.scheme.as_str(), "https") {
        let mut e = "only http(s) urls are allowed (got \"".to_owned();
        e.append(p.scheme.as_str());
        e.append(":\")");
        return Err(RenderError::bad_request(e));
    }
    let host = match p.host {
        Some(h) => lowered(h.as_str()),
        None => {
            let none = String::new();
            lowered(none.as_str())
        },
    };
    if is_blocked_host(host.as_str()) {
        let mut e = "navigation to internal/loopback/link-local address \"".to_owned();
        e.append(host.as_str());
        e.append("\" is blocked (set KITE_PDF_ALLOW_PRIVATE_IPS=1 for trusted networks)");
        return Err(RenderError::bad_request(e));
    }
    Ok(())
}

/// Refuses a URL that is not a public web address, unless private targets are allowed.
pub fn assert_public_url(url: &str, allow_private: bool) -> (res: Result<(), RenderError>)
    ensures
        is_verdict(
            res,
            if allow_private {
                None
            } else {
                target_error(url@, url_parts(url@))
            },
        ),
        allow_private ==> res is Ok,
        !allow_private ==> match target_error(url@, url_parts(url@)) {
            Some(e) => res is Err && res->Err_0 is BadRequest && res->Err_0.text() == e,
            None => res is Ok,
        },
{
    if allow_private {
        return Ok(());
    }
    check_target(url, parse_url(url))
}

// -- plans ------------------------------------------------------------------------------
/// Which backends a build has.
#[derive(Clone, Copy, Debug, PartialEq, Eq, Structural)]
pub struct Build {
    pub chromium: bool,
    pub typst: bool,
}

impl Build {
    /// Both backends.
    pub fn full() -> (res: Build)
        ensures
            res.chromium && res.typst,
    {
        Build { chromium: true, typst: true }
    }
}

/// What Chromium renders.
pub enum Source {
    Html(String),
    Url(String),
}

/// What a render does.
pub enum RenderPlan {
    Chromium { source: Source, options: PdfOptions },
    Typst { template: String, data: String },
}

/// Whether a scale is within what the browser accepts, 0.1 to 2.0. The bits of floats that
/// are not negative order like the floats; those of negative floats and NaN lie above.
pub open spec fn scale_in_range(bits: u64) -> bool {
    0x3fb9_9999_9999_999a <= bits <= 0x4000_0000_0000_0000
}

/// The error of a request for the Chromium backend, if any.
pub open spec fn chromium_error(req: RenderRequest, allow_private: bool) -> Option<Seq<char>> {
    if req.scale is Some && !scale_in_range(req.scale.unwrap().bits) {
        Some(
            "scale "@ + req.scale.unwrap().text@
                + " out of range (Chrome printToPDF accepts 0.1–2.0)"@,
        )
    } else if req.html is Some {
        None
    } else {
        match req.url {
            Some(u) => if allow_private {
                None
            } else {
                target_error(u@, url_parts(u@))
            },
            None => Some("chromium backend requires `html` or `url`"@),
        }
    }
}

/// The JSON text that a template reads.
pub open spec fn data_text(data: Option<Json>) -> Seq<char> {
    match data {
        Some(d) => json_text(d@),
        None => "null"@,
    }
}

/// Plans a render through Chromium: HTML wins over a URL, which must be public.
pub fn plan_chromium(req: &RenderRequest, allow_private: bool) -> (res: Result<
    RenderPlan,
    RenderError,
>)
    ensures
        match chromium_error(*req, allow_private) {
            Some(e) => res is Err && res->Err_0 is BadRequest && res->Err_0.text() == e,
            None => {
                &&& res matches Ok(RenderPlan::Chromium { source, options })
                &&& options_of(options, *req)
                &&& req.margin matches Some(m) ==> opt_text(options.margin_left) == opt_text(m.left)
                    && opt_text(options.margin_right) == opt_text(m.right) && opt_text(
                    options.margin_top,
                ) == opt_text(m.top) && opt_text(options.margin_bottom) == opt_text(m.bottom)
                &&& match req.html {
                    Some(h) => source matches Source::Html(s) && s@ == h@,
                    None => source matches Source::Url(u) && req.url matches Some(v) && u@ == v@,
                }
            },
        },
{
    if let Some(scale) = &req.scale {
        if !(0x3fb9_9999_9999_999a <= scale.bits && scale.bits <= 0x4000_0000_0000_0000) {
            let mut e = "scale ".to_owned();
            e.append(scale.text.as_str());
            e.append(" out of range (Chrome printToPDF accepts 0.1–2.0)");
            return Err(RenderError::bad_request(e));
        }
    }
    let options = pdf_options(req);
    if let Some(html) = &req.html {
        return Ok(RenderPlan::Chromium { source: Source::Html(html.clone()), options });
    }
    match &req.url {
        Some(url) => match assert_public_url(url.as_str(), allow_private) {
            Ok(()) => Ok(RenderPlan::Chromium { source: Source::Url(url.clone()), options }),
            Err(e) => Err(e),
        },
        None => Err(
            RenderError::bad_request("chromium backend requires `html` or `url`".to_owned()),
        ),
    }
}

/// Plans a render through Typst.
pub fn plan_typst(req: &RenderRequest) -> (res: Result<RenderPlan, RenderError>)
    ensures
        match req.template {
            Some(t) => {
                &&& res matches Ok(RenderPlan::Typst { template, data })
                &&& template@ == t@
                &&& data@ == data_text(req.data)
            },
            None => res is Err && res->Err_0 is BadRequest && res->Err_0.text()
                == "typst backend requires `template`"@,
        },
{
    match &req.template {
        Some(t) => {
            let data = match &req.data {
                Some(d) => d.to_text(),
                None => "null".to_owned(),
            };
            Ok(RenderPlan::Typst { template: t.clone(), data })
        },
        None => Err(RenderError::bad_request("typst backend requires `template`".to_owned())),
    }
}

/// Why a request is refused, if it is: no backend, one that the build does not have, or bad
/// input for it.
pub open spec fn refusal(build: Build, req: RenderRequest, allow_private: bool) -> Option<
    Seq<char>,
> {
    match req.resolved() {
        Some(Backend::Chromium) => if build.chromium {
            chromium_error(req, allow_private)
        } else {
            Some("chromium backend not compiled in this build — use the full or -chromium build"@)
        },
        Some(Backend::Typst) => if build.typst {
            if req.template is Some {
                None
            } else {
                Some("typst backend requires `template`"@)
            }
        } else {
            Some("typst backend not compiled in this build — use the full or -lite build"@)
        },
        None => match req.engine {
            Some(e) => Some(
                "unknown engine "@ + crate::text::debug_text(lower(crate::text::trim(e@)))
                    + " (expected \"chromium\" or \"typst\")"@,
            ),
            None => Some(
                "no engine selected and no content provided: send one of `html`, `url` (chromium) or `template` (typst)"@,
            ),
        },
    }
}

/// Plans a render: resolves the backend and checks its input. Every refusal is the client's
/// error.
pub fn render(build: Build, req: &RenderRequest, allow_private: bool) -> (res: Result<
    RenderPlan,
    RenderError,
>)
    ensures
        match refusal(build, *req, allow_private) {
            Some(e) => res is Err && res->Err_0 is BadRequest && res->Err_0.text() == e,
            None => res is Ok && match res->Ok_0 {
                RenderPlan::Chromium { source, options } => {
                    &&& req.resolved() == Some(Backend::Chromium)
                    &&& options_of(options, *req)
                    &&& match req.html {
                        Some(h) => source matches Source::Html(s) && s@ == h@,
                        None => source matches Source::Url(u) && req.url matches Some(v) && u@
                            == v@,
                    }
                },
                RenderPlan::Typst { template, data } => {
                    &&& req.resolved() == Some(Backend::Typst)
                    &&& req.template matches Some(t) && template@ == t@
                    &&& data@ == data_text(req.data)
                },
            },
        },
{
    match req.backend() {
        Ok(Backend::Chromium) => if build.chromium {
            plan_chromium(req, allow_private)
        } else {
            Err(
                RenderError::bad_request(
                    "chromium backend not compiled in this build — use the full or -chromium build".to_owned(),
                ),
            )
        },
        Ok(Backend::Typst) => if build.typst {
            plan_typst(req)
        } else {
            Err(
                RenderError::bad_request(
                    "typst backend not compiled in this build — use the full or -lite build".to_owned(),
                ),
            )
        },
        Err(e) => Err(e),
    }
}

// -- outcomes ------------------------------------------------------------------------------
/// The messages of a failed compilation as one text.
pub open spec fn diagnostics(messages: Seq<Seq<char>>) -> Seq<char> {
    if messages.len() == 0 {
        "typst compilation failed"@
    } else {
        join(messages, "; "@)
    }
}

/// The messages of a failed compilation as one text.
pub fn format_diagnostics(messages: &Vec<String>) -> (res: String)
    ensures
        res@ == diagnostics(texts(messages@)),
{
    if messages.len() == 0 {
        "typst compilation failed".to_owned()
    } else {
        join_texts(messages, "; ")
    }
}

/// Where a Typst render failed.
#[derive(Clone, Copy, Debug, PartialEq, Eq, Structural)]
pub enum TypstStage {
    /// The template does not compile: the client's error.
    Compile,
    /// The document could not be exported: the server's.
    Export,
}

/// The error of a failed Typst render.
pub fn typst_failed(stage: TypstStage, messages: &Vec<String>) -> (res: RenderError)
    ensures
        match stage {
            TypstStage::Compile => res is BadRequest && res.text() == "typst compile error: "@
                + diagnostics(texts(messages@)),
            TypstStage::Export => res is Internal && res.text() == "typst pdf export: "@
                + diagnostics(texts(messages@)),
        },
{
    let d = format_diagnostics(messages);
    match stage {
        TypstStage::Compile => {
            let mut e = "typst compile error: ".to_owned();
            e.append(d.as_str());
            RenderError::bad_request(e)
        },
        TypstStage::Export => {
            let mut e = "typst pdf export: ".to_owned();
            e.append(d.as_str());
            RenderError::internal(e)
        },
    }
}

/// Where a Chromium render failed.
#[derive(Clone, Copy, Debug, PartialEq, Eq, Structural)]
pub enum ChromiumStage {
    SetContent,
    Print,
}

/// The error of a failed Chromium render: always the server's.
pub fn chromium_failed(stage: ChromiumStage, cause: &str) -> (res: RenderError)
    ensures
        res is Internal,
        res.text() == match stage {
            ChromiumStage::SetContent => "set_content failed: "@ + cause@,
            ChromiumStage::Print => "pdf render failed: "@ + cause@,
        },
{
    let mut e = match stage {
        ChromiumStage::SetContent => "set_content failed: ".to_owned(),
        ChromiumStage::Print => "pdf render failed: ".to_owned(),
    };
    e.append(cause);
    RenderError::internal(e)
}

// -- laws ------------------------------------------------------------------------------
proof fn lemma_no_brackets(h: Seq<char>)
    requires
        h.len() > 0,
        h[0] != '[',
        h.last() != ']',
    ensures
        strip_close(strip_open(h)) == h,
{
}

/// Every loopback, private, link-local and unspecified IPv4 address is refused in its dotted
/// form.
pub proof fn law_internal_ipv4_is_blocked(a: int, b: int, c: int, d: int)
    requires
        0 <= a <= 255,
        0 <= b <= 255,
        0 <= c <= 255,
        0 <= d <= 255,
        internal_ip(IpView::V4(a, b, c, d)),
    ensures
        blocked_host(dotted(a, b, c, d)),
{
    crate::ip::law_ipv4_text_round_trip(a, b, c, d);
    lemma_dotted_ends(a, b, c, d);
    lemma_no_brackets(dotted(a, b, c, d));
}

/// A public IPv4 address is not refused in its dotted form.
pub proof fn law_public_ipv4_is_allowed(a: int, b: int, c: int, d: int)
    requires
        0 <= a <= 255,
        0 <= b <= 255,
        0 <= c <= 255,
        0 <= d <= 255,
        !internal_ip(IpView::V4(a, b, c, d)),
    ensures
        !blocked_host(dotted(a, b, c, d)),
{
    crate::ip::law_ipv4_text_round_trip(a, b, c, d);
    lemma_dotted_ends(a, b, c, d);
    let h = dotted(a, b, c, d);
    lemma_no_brackets(h);
    reveal_strlit("localhost");
    reveal_strlit(".localhost");
    reveal_strlit(".local");
    reveal_strlit(".internal");
    if ends_with(h, ".localhost"@) {
        assert(h.skip(h.len() - ".localhost"@.len()).last() == 't');
    }
    if ends_with(h, ".local"@) {
        assert(h.skip(h.len() - ".local"@.len()).last() == 'l');
    }
    if ends_with(h, ".internal"@) {
        assert(h.skip(h.len() - ".internal"@.len()).last() == 'l');
    }
}

proof fn lemma_dotted_ends(a: int, b: int, c: int, d: int)
    requires
        0 <= a <= 255,
        0 <= d <= 255,
    ensures
        dotted(a, b, c, d).len() > 0,
        '0' <= dotted(a, b, c, d)[0] <= '9',
        '0' <= dotted(a, b, c, d).last() <= '9',
{
    reveal_with_fuel(crate::text::decimal, 4);
    let h = dotted(a, b, c, d);
    assert(h[0] == crate::text::decimal(a)[0]);
    assert(h.last() == crate::text::decimal(d).last());
    assert(a / 10 < 10 || a / 10 / 10 < 10);
}

/// A request for a backend that the build does not have is refused as the client's error,
/// whatever else it holds.
pub proof fn law_missing_backend_is_refused(build: Build, req: RenderRequest, allow_private: bool)
    requires
        req.resolved() == Some(Backend::Chromium) && !build.chromium || req.resolved() == Some(
            Backend::Typst,
        ) && !build.typst,
    ensures
        refusal(build, req, allow_private) is Some,
{
}

/// The brackets around a host go, as many as there are: what is left neither starts with an
/// opening bracket nor ends with a closing one, and nothing but those was taken away.
pub proof fn law_bare_host(h: Seq<char>) -> (r: (int, int))
    ensures
        0 <= r.0 <= r.1 <= h.len(),
        strip_close(strip_open(h)) == h.subrange(r.0, r.1),
        forall|k: int| 0 <= k < r.0 ==> #[trigger] h[k] == '[',
        forall|k: int| r.1 <= k < h.len() ==> #[trigger] h[k] == ']',
        r.0 < r.1 ==> h[r.0] != '[' && h[r.1 - 1] != ']',
{
    let i = lemma_strip_open(h);
    let t = h.skip(i);
    let j = lemma_strip_close(t);
    assert(t.take(j) =~= h.subrange(i, i + j));
    assert forall|k: int| i + j <= k < h.len() implies #[trigger] h[k] == ']' by {
        assert(t[k - i] == h[k]);
    }
    if j > 0 {
        assert(t[j - 1] == h[i + j - 1]);
    }
    (i, i + j)
}

proof fn lemma_strip_open(h: Seq<char>) -> (i: int)
    ensures
        0 <= i <= h.len(),
        strip_open(h) == h.skip(i),
        forall|k: int| 0 <= k < i ==> #[trigger] h[k] == '[',
        i < h.len() ==> h[i] != '[',
    decreases h.len(),
{
    if h.len() > 0 && h[0] == '[' {
        let rest = h.drop_first();
        let i = lemma_strip_open(rest);
        assert(rest.skip(i) =~= h.skip(i + 1));
        assert forall|k: int| 0 <= k < i + 1 implies #[trigger] h[k] == '[' by {
            if k > 0 {
                assert(rest[k - 1] == h[k]);
            }
        }
        if i + 1 < h.len() {
            assert(rest[i] == h[i + 1]);
        }
        i + 1
    } else {
        assert(h.skip(0) =~= h);
        0
    }
}

proof fn lemma_strip_close(h: Seq<char>) -> (j: int)
    ensures
        0 <= j <= h.len(),
        strip_close(h) == h.take(j),
        forall|k: int| j <= k < h.len() ==> #[trigger] h[k] == ']',
        j > 0 ==> h[j - 1] != ']',
    decreases h.len(),
{
    if h.len() > 0 && h.last() == ']' {
        let front = h.drop_last();
        let j = lemma_strip_close(front);
        assert(front.take(j) =~= h.take(j));
        assert forall|k: int| j <= k < h.len() implies #[trigger] h[k] == ']' by {
            if k < front.len() {
                assert(front[k] == h[k]);
            }
        }
        if j > 0 {
            assert(front[j - 1] == h[j - 1]);
        }
        j
    } else {
        assert(h.take(h.len() as int) =~= h);
        h.len() as int
    }
}

/// Which IPv4 addresses a render may not reach: the loopback, private, link-local and
/// unspecified ones, and no other.
pub proof fn law_blocked_ipv4_addresses(a: int, b: int, c: int, d: int)
    requires
        0 <= a <= 255,
        0 <= b <= 255,
        0 <= c <= 255,
        0 <= d <= 255,
    ensures
        blocked_host(dotted(a, b, c, d)) <==> a == 127 || a == 10 || (a == 172 && 16 <= b <= 31) || (
        a == 192 && b == 168) || (a == 169 && b == 254) || (a == 0 && b == 0 && c == 0 && d == 0),
{
    if internal_ip(IpView::V4(a, b, c, d)) {
        law_internal_ipv4_is_blocked(a, b, c, d);
    } else {
        law_public_ipv4_is_allowed(a, b, c, d);
    }
}

/// Which hosts a render may not reach: `localhost` and the local domains, and the addresses of
/// this machine and of private networks, in brackets or not.
pub proof fn law_blocked_hosts(host: Seq<char>, h: Seq<char>, g: Seq<int>)
    requires
        h == strip_close(strip_open(host)),
    ensures
        h == "localhost"@ || ends_with(h, ".localhost"@) || ends_with(h, ".local"@) || ends_with(
            h,
            ".internal"@,
        ) ==> blocked_host(host),
        ip(h) is None && h != "localhost"@ && !ends_with(h, ".localhost"@) && !ends_with(
            h,
            ".local"@,
        ) && !ends_with(h, ".internal"@) ==> !blocked_host(host),
        ip(h) matches Some(IpView::V4(a, b, c, d)) ==> (a == 127 || a == 10 || (a == 172 && 16 <= b
            <= 31) || (a == 192 && b == 168) || (a == 169 && b == 254) || (a == 0 && b == 0 && c == 0
            && d == 0) ==> blocked_host(host)),
        ip(h) matches Some(IpView::V4(a, b, c, d)) ==> (blocked_host(host) ==> a == 127 || a == 10
            || (a == 172 && 16 <= b <= 31) || (a == 192 && b == 168) || (a == 169 && b == 254) || (a
            == 0 && b == 0 && c == 0 && d == 0) || h == "localhost"@ || ends_with(h, ".localhost"@)
            || ends_with(h, ".local"@) || ends_with(h, ".internal"@)),
        ip(h) == Some(IpView::V6(g)) && g.len() == 8 ==> ({
            let zeros = forall|i: int| 0 <= i < 7 ==> #[trigger] g[i] == 0;
            &&& zeros && (g[7] == 0 || g[7] == 1) ==> blocked_host(host)
            &&& 0xfe80 <= g[0] <= 0xfebf || 0xfc00 <= g[0] <= 0xfdff ==> blocked_host(host)
            &&& blocked_host(host) ==> (zeros && (g[7] == 0 || g[7] == 1)) || 0xfe80 <= g[0]
                <= 0xfebf || 0xfc00 <= g[0] <= 0xfdff || h == "localhost"@ || ends_with(
                h,
                ".localhost"@,
            ) || ends_with(h, ".local"@) || ends_with(h, ".internal"@)
        }),
{
    if ip(h) == Some(IpView::V6(g)) && g.len() == 8 {
        if forall|i: int| 0 <= i < 7 ==> #[trigger] g[i] == 0 {
            if g[7] == 1 {
                assert(g =~= seq![0int, 0, 0, 0, 0, 0, 0, 1]);
            }
            if g[7] == 0 {
                assert(g =~= seq![0int, 0, 0, 0, 0, 0, 0, 0]);
            }
        }
    }
}

/// The verdict on a URL: one that does not parse is refused, one of another scheme than the
/// web's is, and one whose host may not be reached is; every other one is rendered.
pub proof fn law_target_verdicts(url: Seq<char>, scheme: Seq<char>, host: Option<Seq<char>>)
    ensures
        target_error(url, None) == Some("invalid url: "@ + url),
        scheme != "http"@ && scheme != "https"@ ==> target_error(url, Some((scheme, host))) == Some(
            "only http(s) urls are allowed (got \""@ + scheme + ":\")"@,
        ),
        scheme == "http"@ || scheme == "https"@ ==> ({
            let h = match host {
                Some(h) => lower(h),
                None => lower(Seq::<char>::empty()),
            };
            &&& target_error(url, Some((scheme, host))) is Some <==> blocked_host(h)
            &&& blocked_host(h) ==> target_error(url, Some((scheme, host))) == Some(
                "navigation to internal/loopback/link-local address \""@ + h
                    + "\" is blocked (set KITE_PDF_ALLOW_PRIVATE_IPS=1 for trusted networks)"@,
            )
        }),
{
}

/// Why a request for Chromium is refused: a scale below 0.1 or above 2.0, before anything else;
/// then HTML is always taken, a URL only where it may be reached or private targets are allowed,
/// and nothing to render is refused.
pub proof fn law_chromium_requests(req: RenderRequest, allow_private: bool)
    ensures
        req.scale matches Some(s) ==> (s.bits < 0x3fb9_9999_9999_999a || s.bits
            > 0x4000_0000_0000_0000 ==> chromium_error(req, allow_private) == Some(
            "scale "@ + s.text@ + " out of range (Chrome printToPDF accepts 0.1–2.0)"@,
        )),
        (req.scale matches Some(s) ==> 0x3fb9_9999_9999_999a <= s.bits <= 0x4000_0000_0000_0000)
            ==> ({
            &&& req.html is Some ==> chromium_error(req, allow_private) is None
            &&& req.html is None && req.url is None ==> chromium_error(req, allow_private) == Some(
                "chromium backend requires `html` or `url`"@,
            )
            &&& req.html is None && req.url is Some && allow_private ==> chromium_error(
                req,
                allow_private,
            ) is None
            &&& req.html is None && req.url is Some && !allow_private ==> chromium_error(
                req,
                allow_private,
            ) == target_error(req.url.unwrap()@, url_parts(req.url.unwrap()@))
        }),
{
}

/// Why a request is refused at all: its backend is unknown, or not in the build, or its input
/// does not fit.
pub proof fn law_refusals(build: Build, req: RenderRequest, allow_private: bool)
    ensures
        req.resolved() == Some(Backend::Chromium) && build.chromium ==> refusal(
            build,
            req,
            allow_private,
        ) == chromium_error(req, allow_private),
        req.resolved() == Some(Backend::Chromium) && !build.chromium ==> refusal(
            build,
            req,
            allow_private,
        ) == Some(
            "chromium backend not compiled in this build — use the full or -chromium build"@,
        ),
        req.resolved() == Some(Backend::Typst) && !build.typst ==> refusal(
            build,
            req,
            allow_private,
        ) == Some("typst backend not compiled in this build — use the full or -lite build"@),
        req.resolved() == Some(Backend::Typst) && build.typst ==> refusal(build, req, allow_private)
            == (if req.template is Some {
            None
        } else {
            Some("typst backend requires `template`"@)
        }),
        req.resolved() is None && req.engine is None ==> refusal(build, req, allow_private) == Some(
            "no engine selected and no content provided: send one of `html`, `url` (chromium) or `template` (typst)"@,
        ),
        req.resolved() is None ==> refusal(build, req, allow_private) is Some,
        req.engine is None && (req.html is Some || req.url is Some) ==> req.resolved() == Some(
            Backend::Chromium,
        ),
        req.engine is None && req.html is None && req.url is None ==> (req.resolved() == (
        if req.template is Some {
            Some(Backend::Typst)
        } else {
            None
        })),
{
}

/// The data of a template is its JSON text, and `null` without any; the messages of a failed
/// compilation stand one after the other, in order.
pub proof fn law_typst_texts(d: Json, messages: Seq<Seq<char>>)
    ensures
        data_text(Some(d)) == json_text(d@),
        data_text(None) == "null"@,
        messages.len() > 0 ==> diagnostics(messages) == join(messages, "; "@),
        messages.len() == 0 ==> diagnostics(messages) == "typst compilation failed"@,
{
}

} // verus!
