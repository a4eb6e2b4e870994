//! The HTTP render service: where it may listen, who may use it, and what it answers.
use crate::engine::{non_empty, number_or};
use crate::guard::{bearer, presents_token};
use crate::ip::{ip, is_loopback, loopback, parse_ip, parse_socket_ip, socket_ip, Ip, IpView};
use crate::json::{member_views, views, Json, JsonView};
use crate::render::Build;
use crate::request::RenderError;
use crate::text::{
    decimal, has_prefix, is_empty, law_numbers_round_trip, opt_str, parse_number, parse_unsigned,
    starts_with, to_chars,
};
use crate::tools::ObjectBuilder;
use vstd::prelude::*;

verus! {

/// Request-body cap in MiB, unless configured otherwise: documents with embedded images and
/// fonts are large.
pub const DEFAULT_MAX_BODY_MB: usize = 32;

/// Renders that may run at once, unless configured otherwise.
pub const DEFAULT_MAX_CONCURRENCY: usize = 4;

/// A variable that counts only when it is a number above zero.
pub open spec fn positive_or(var: Option<Seq<char>>, default: int) -> int {
    let n = number_or(var, usize::MAX as int, default);
    if n > 0 {
        n
    } else {
        default
    }
}

fn parse_positive(var: Option<&str>, default: usize) -> (res: usize)
    requires
        default > 0,
    ensures
        res == positive_or(opt_str(var), default as int),
        res > 0,
{
    match var {
        Some(v) => {
            let c = to_chars(v);
            match parse_unsigned(c.as_slice(), usize::MAX as u64) {
                Some(n) => if n > 0 {
                    n as usize
                } else {
                    default
                },
                None => default,
            }
        },
        None => default,
    }
}

/// The request-body cap in bytes, saturating.
pub fn max_body_bytes(max_body_mb: Option<&str>) -> (res: usize)
    ensures
        res == {
            let mb = positive_or(opt_str(max_body_mb), 32);
            if mb > usize::MAX / 1_048_576 {
                usize::MAX as int
            } else {
                mb * 1_048_576
            }
        },
{
    let mb: usize = parse_positive(max_body_mb, DEFAULT_MAX_BODY_MB);
    if mb > usize::MAX / 1_048_576 {
        usize::MAX
    } else {
        assert(mb * 1_048_576 <= usize::MAX) by (nonlinear_arith)
            requires
                mb <= usize::MAX / 1_048_576,
        ;
        mb * 1_048_576
    }
}

/// The state that requests share.
#[derive(Clone, Copy, Debug)]
pub struct AppState {
    pub build: Build,
    /// Renders that may run at once.
    pub max_concurrency: usize,
    /// Whether URLs may reach private networks.
    pub allow_private: bool,
}

impl AppState {
    /// Reads the service's settings.
    pub fn new(build: Build, max_concurrency: Option<&str>, allow_private: bool) -> (res: AppState)
        ensures
            res.build == build,
            res.max_concurrency == positive_or(
                opt_str(max_concurrency),
                4,
            ),
            res.allow_private == allow_private,
    {
        AppState {
            build,
            max_concurrency: parse_positive(max_concurrency, DEFAULT_MAX_CONCURRENCY),
            allow_private,
        }
    }
}

/// The names of a build's backends.
pub open spec fn backend_names(build: Build) -> Seq<Seq<char>> {
    (if build.chromium {
        seq!["chromium"@]
    } else {
        Seq::empty()
    }) + (if build.typst {
        seq!["typst"@]
    } else {
        Seq::empty()
    })
}

/// The texts of a list of names.
pub open spec fn name_texts(v: Seq<&'static str>) -> Seq<Seq<char>> {
    v.map_values(|s: &'static str| s@)
}

/// The backends of a build.
pub fn compiled_backends(build: Build) -> (res: Vec<&'static str>)
    ensures
        name_texts(res@) == backend_names(build),
{
    let mut v: Vec<&'static str> = Vec::new();
    if build.chromium {
        v.push("chromium");
    }
    if build.typst {
        v.push("typst");
    }
    assert(name_texts(v@) =~= backend_names(build));
    v
}

/// The names as JSON strings.
pub open spec fn json_names(names: Seq<Seq<char>>) -> Seq<JsonView> {
    names.map_values(|n: Seq<char>| JsonView::Str(n))
}

/// The answer to a health check.
pub fn healthz(build: Build) -> (res: Json)
    ensures
        res@ == JsonView::Object(
            seq![
                ("backends"@, JsonView::Array(json_names(backend_names(build)))),
                ("status"@, JsonView::Str("ok"@)),
            ],
        ),
{
    let names = compiled_backends(build);
    let mut list: Vec<Json> = Vec::new();
    for i in 0..names.len()
        invariant
            name_texts(names@) == backend_names(build),
            views(list@) == json_names(backend_names(build)).take(i as int),
    {
        let ghost before = list@;
        let j = Json::Str(names[i].to_owned());
        assert(backend_names(build)[i as int] == names@[i as int]@);
        list.push(j);
        assert(views(list@) =~= views(before).push(j@));
        assert(json_names(backend_names(build)).take(i + 1) =~= json_names(
            backend_names(build),
        ).take(i as int).push(j@));
    }
    assert(json_names(backend_names(build)).take(names@.len() as int) =~= json_names(
        backend_names(build),
    ));
    let backends = Json::Array(list);
    proof {
        crate::json::lemma_array_view(backends);
    }
    let mut o = ObjectBuilder::new();
    o.put("backends", backends);
    o.put("status", Json::Str("ok".to_owned()));
    assert(member_views(o.members@) =~= seq![
        ("backends"@, JsonView::Array(json_names(backend_names(build)))),
        ("status"@, JsonView::Str("ok"@)),
    ]);
    o.done()
}

// -- answers ------------------------------------------------------------------------------
/// The body of an error.
pub open spec fn error_body(message: Seq<char>) -> JsonView {
    JsonView::Object(seq![("error"@, JsonView::Str(message))])
}

fn error_json(message: &str) -> (res: Json)
    ensures
        res@ == error_body(message@),
{
    let mut o = ObjectBuilder::new();
    o.put("error", Json::Str(message.to_owned()));
    assert(member_views(o.members@) =~= seq![("error"@, JsonView::Str(message@))]);
    o.done()
}

/// The answer to a failed render: 400 for the client's errors, 500 for the server's.
pub fn error_response(err: &RenderError) -> (res: (u16, Json))
    ensures
        res.0 == if err is BadRequest {
            400
        } else {
            500int
        },
        res.1@ == error_body(err.text()),
{
    (err.status(), error_json(err.message()))
}

/// The answer to a request that fails authentication; `None` when it is authorised. Without
/// a token every request is.
pub fn check_auth(token: Option<&str>, authorization: Option<&str>) -> (res: Option<(u16, Json)>)
    ensures
        match non_empty(opt_str(token)) {
            None => res is None,
            Some(t) => if bearer(opt_str(authorization)) == Some(t) {
                res is None
            } else {
                &&& res is Some
                &&& res.unwrap().0 == 401
                &&& token matches Some(given) && given@ == t && given@.len() > 0
                &&& res.unwrap().1@ == error_body("unauthorized: missing or invalid bearer token"@)
            },
        },
{
    let t = match token {
        Some(t) => t,
        None => {
            return None;
        },
    };
    if is_empty(t) || presents_token(authorization, t) {
        return None;
    }
    Some((401, error_json("unauthorized: missing or invalid bearer token")))
}

// -- listening ------------------------------------------------------------------------------
/// The address to listen on: loopback by default; a bare IP address gets the standard port.
pub open spec fn bind_text(bind: Option<Seq<char>>) -> Seq<char> {
    match bind {
        None => "127.0.0.1:8091"@,
        Some(b) => match ip(b) {
            Some(IpView::V4(..)) => b + ":8091"@,
            Some(IpView::V6(_)) => "["@ + b + "]:8091"@,
            None => b,
        },
    }
}

/// Whether an address can be reached from other machines. What cannot be told is taken to be.
pub open spec fn exposed(bind: Seq<char>) -> bool {
    if starts_with(bind, "localhost:"@) {
        false
    } else {
        match socket_ip(bind) {
            Some(a) => !is_loopback(a),
            None => true,
        }
    }
}

/// How the service starts.
pub struct ServePlan {
    pub bind: String,
    /// Whether to warn that anyone who reaches the service may use it.
    pub unauthenticated: bool,
}

/// The refusal to start on an address, which is named as it was given.
pub open spec fn refusal_text(bind: Seq<char>) -> Seq<char> {
    "Refusing to start: KITE_PDF_BIND="@ + bind
        + " exposes the render service on the network with no KITE_PDF_AUTH_TOKEN — a caller could drive fetches/SSRF from your network. Set KITE_PDF_AUTH_TOKEN, bind loopback, or set KITE_PDF_INSECURE=1 to override."@
}

fn bind_address(bind: Option<&str>) -> (res: String)
    ensures
        res@ == bind_text(opt_str(bind)),
{
    match bind {
        None => "127.0.0.1:8091".to_owned(),
        Some(b) => match parse_ip(b) {
            Some(Ip::V4(_, _, _, _)) => {
                let mut out = b.to_owned();
                out.append(":8091");
                out
            },
            Some(Ip::V6(_)) => {
                let mut out = "[".to_owned();
                out.append(b);
                out.append("]:8091");
                out
            },
            None => b.to_owned(),
        },
    }
}

fn is_exposed(bind: &str) -> (res: bool)
    ensures
        res == exposed(bind@),
{
    let c = to_chars(bind);
    if has_prefix(c.as_slice(), "localhost:") {
        return false;
    }
    match parse_socket_ip(bind) {
        Some(a) => !loopback(&a),
        None => true,
    }
}

/// Decides whether and where the service starts: exposed to the network it needs a token,
/// unless that is overridden.
pub fn serve(bind: Option<&str>, token: Option<&str>, insecure: bool) -> (res: Result<
    ServePlan,
    String,
>)
    ensures
        ({
            let addr = bind_text(opt_str(bind));
            let has_auth = non_empty(opt_str(token)) is Some;
            if exposed(addr) && !has_auth && !insecure {
                res is Err && res->Err_0@ == refusal_text(
                    match bind {
                        Some(given) => given@,
                        None => addr,
                    },
                )
            } else {
                &&& res is Ok
                &&& res->Ok_0.bind@ == addr
                &&& res->Ok_0.unauthenticated == !has_auth
            }
        }),
{
    let addr = bind_address(bind);
    let has_auth = match token {
        Some(t) => !is_empty(t),
        None => false,
    };
    if is_exposed(addr.as_str()) && !has_auth && !insecure {
        let mut e = "Refusing to start: KITE_PDF_BIND=".to_owned();
        e.append(
            match bind {
                Some(given) => given,
                None => addr.as_str(),
            },
        );
        e.append(
            " exposes the render service on the network with no KITE_PDF_AUTH_TOKEN — a caller could drive fetches/SSRF from your network. Set KITE_PDF_AUTH_TOKEN, bind loopback, or set KITE_PDF_INSECURE=1 to override.",
        );
        return Err(e);
    }
    Ok(ServePlan { bind: addr, unauthenticated: !has_auth })
}

/// Bound to an IPv4 address that other machines reach, the service is exposed: it never
/// starts there without a token or an explicit override.
pub proof fn law_public_bind_is_exposed(a: int, b: int, c: int, d: int)
    requires
        0 <= a <= 255,
        0 <= b <= 255,
        0 <= c <= 255,
        0 <= d <= 255,
        a != 127,
    ensures
        ({
            let addr = bind_text(Some(crate::ip::dotted(a, b, c, d)));
            addr == crate::ip::dotted(a, b, c, d) + ":8091"@ && exposed(addr)
        }),
{
    crate::ip::law_ipv4_text_round_trip(a, b, c, d);
    let host = crate::ip::dotted(a, b, c, d);
    let addr = host + ":8091"@;
    reveal_strlit(":8091");
    reveal_strlit("localhost:");
    let port = seq!['8', '0', '9', '1'];
    assert(":8091"@ =~= seq![':'] + port);
    lemma_rfind_port(host, port);
    assert(addr =~= host.push(':') + port);
    assert(addr.take(host.len() as int) =~= host);
    assert(addr.skip(host.len() as int + 1) =~= port);
    reveal_with_fuel(crate::text::decimal, 4);
    assert(host[0] == crate::text::decimal(a)[0]);
    if starts_with(addr, "localhost:"@) {
        assert(addr.take("localhost:"@.len() as int)[0] == 'l');
        assert(addr[0] == 'l');
    }
}

proof fn lemma_rfind_port(host: Seq<char>, port: Seq<char>)
    requires
        !port.contains(':'),
    ensures
        crate::text::rfind(host.push(':') + port, ':') == host.len(),
    decreases port.len(),
{
    let s = host.push(':') + port;
    if port.len() == 0 {
        assert(s =~= host.push(':'));
    } else {
        assert(port[port.len() - 1] == port.last());
        let front = port.drop_last();
        assert forall|i: int| 0 <= i < front.len() implies front[i] != ':' by {
            assert(port[i] == front[i]);
        }
        assert(s.drop_last() =~= host.push(':') + front);
        lemma_rfind_port(host, front);
    }
}

// -- laws ------------------------------------------------------------------------------
/// A setting counts where it is a number above zero; otherwise the default does.
pub proof fn law_positive_settings(n: int, default: int, var: Seq<char>)
    requires
        0 < default,
        0 < n <= usize::MAX,
    ensures
        positive_or(Some(decimal(n)), default) == n,
        positive_or(Some(decimal(0)), default) == default,
        positive_or(None, default) == default,
        parse_number(var, usize::MAX as int) is None ==> positive_or(Some(var), default) == default,
{
    law_numbers_round_trip(n, usize::MAX as int);
    law_numbers_round_trip(0, usize::MAX as int);
}

/// A build names the backends it has, Chromium first, and no other.
pub proof fn law_backend_names(build: Build)
    ensures
        backend_names(build).contains("chromium"@) <==> build.chromium,
        backend_names(build).contains("typst"@) <==> build.typst,
        build.chromium && build.typst ==> backend_names(build) == seq!["chromium"@, "typst"@],
        backend_names(build).len() == (if build.chromium {
            1int
        } else {
            0int
        }) + (if build.typst {
            1int
        } else {
            0int
        }),
{
    reveal_strlit("chromium");
    reveal_strlit("typst");
    assert("chromium"@[0] == 'c');
    assert("typst"@[0] == 't');
    let names = backend_names(build);
    if build.chromium {
        assert(names[0] == "chromium"@);
    }
    if build.typst {
        assert(names[names.len() - 1] == "typst"@);
    }
    if build.chromium && build.typst {
        assert(names =~= seq!["chromium"@, "typst"@]);
    }
}

/// The names of an answer are those of the build, in order; the body of an error is its message
/// under `error` and nothing else.
pub proof fn law_answers(names: Seq<Seq<char>>, v: Seq<&'static str>, i: int, message: Seq<char>)
    ensures
        json_names(names).len() == names.len(),
        0 <= i < names.len() ==> json_names(names)[i] == JsonView::Str(names[i]),
        name_texts(v).len() == v.len(),
        0 <= i < v.len() ==> name_texts(v)[i] == v[i]@,
        error_body(message) == JsonView::Object(seq![("error"@, JsonView::Str(message))]),
{
}

/// Where the service listens: on loopback unless told otherwise; a bare address gets the standard
/// port, an IPv6 one in brackets; everything else is taken as it is.
pub proof fn law_bind_addresses(b: Seq<char>)
    ensures
        bind_text(None) == "127.0.0.1:8091"@,
        ip(b) is None ==> bind_text(Some(b)) == b,
        (ip(b) matches Some(IpView::V4(_, _, _, _))) ==> bind_text(Some(b)) == b + ":8091"@,
        (ip(b) matches Some(IpView::V6(_))) ==> bind_text(Some(b)) == "["@ + b + "]:8091"@,
{
}

/// Which addresses other machines cannot reach: `localhost` and the loopback ones. What is no
/// address at all counts as reachable.
pub proof fn law_exposed_addresses(b: Seq<char>, port: Seq<char>)
    ensures
        !exposed("localhost:"@ + port),
        !starts_with(b, "localhost:"@) && socket_ip(b) is None ==> exposed(b),
        !starts_with(b, "localhost:"@) ==> (socket_ip(b) matches Some(a) ==> (exposed(b)
            <==> !is_loopback(a))),
{
    crate::text::law_affixes(port, "localhost:"@);
}

/// The refusal names the address and what would allow it.
pub proof fn law_refusal_names_the_address(b: Seq<char>)
    ensures
        refusal_text(b) == "Refusing to start: KITE_PDF_BIND="@ + b
            + " exposes the render service on the network with no KITE_PDF_AUTH_TOKEN — a caller could drive fetches/SSRF from your network. Set KITE_PDF_AUTH_TOKEN, bind loopback, or set KITE_PDF_INSECURE=1 to override."@,
{
}

} // verus!
