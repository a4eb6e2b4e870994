//! The HTTP guard of the tool endpoint: DNS-rebinding protection, a per-client rate limit,
//! and an optional bearer token. Instants are milliseconds.
use crate::engine::{non_empty, number_or};
use crate::json::{json_text, member_views, Json, JsonView, Number, NumberView};
use crate::text::{
    find_str, find_text, find_char, find, has_prefix, law_find_is_first, law_rfind_is_last,
    lemma_utf8_injective, non_blank,
    non_blank_texts, opt_str, opt_text, parse_unsigned, rfind, rfind_char, same, slice_text, split,
    starts_with, texts, to_chars,
};
use vstd::hash_map::StringHashMap;
use vstd::prelude::*;
use vstd::string::*;

verus! {

/// Length of a rate window.
pub const WINDOW_MS: u64 = 60_000;

/// Windows older than this are dropped when there are many.
pub const STALE_MS: u64 = 120_000;

/// How many clients are tracked before stale ones are dropped.
pub const MANY_CLIENTS: usize = 1024;

/// Requests per client and minute, unless configured otherwise.
pub const DEFAULT_RATE_LIMIT: u32 = 300;

// -- tokens ------------------------------------------------------------------------------
/// Compares two byte strings without an early exit at the first difference, so that the time
/// taken does not tell where they differ. Their lengths are no secret.
pub fn ct_eq(a: &[u8], b: &[u8]) -> (res: bool)
    ensures
        res == (a@ == b@),
{
    if a.len() != b.len() {
        return false;
    }
    let mut diff: u8 = 0;
    for i in 0..a.len()
        invariant
            a@.len() == b@.len(),
            diff == 0 <==> (forall|k: int| 0 <= k < i ==> a@[k] == b@[k]),
    {
        let x: u8 = a[i];
        let y: u8 = b[i];
        assert((diff | (x ^ y)) == 0u8 <==> (diff == 0u8 && x == y)) by (bit_vector);
        diff = diff | (x ^ y);
    }
    if diff == 0 {
        assert(a@ =~= b@);
    }
    diff == 0
}

/// The token that an `Authorization` header presents.
pub open spec fn bearer(authorization: Option<Seq<char>>) -> Option<Seq<char>> {
    match authorization {
        Some(a) => if starts_with(a, "Bearer "@) {
            Some(a.skip("Bearer "@.len() as int))
        } else {
            None
        },
        None => None,
    }
}

/// Whether a request presents the token.
pub fn presents_token(authorization: Option<&str>, token: &str) -> (res: bool)
    ensures
        res == (bearer(opt_str(authorization)) == Some(token@)),
{
    let a = match authorization {
        Some(a) => a,
        None => {
            return false;
        },
    };
    let c = to_chars(a);
    if !has_prefix(c.as_slice(), "Bearer ") {
        return false;
    }
    proof {
        reveal_strlit("Bearer ");
    }
    let presented = slice_text(c.as_slice(), 7, c.len());
    assert(presented@ =~= a@.skip(7));
    let res = ct_eq(presented.as_str().as_bytes(), token.as_bytes());
    proof {
        if res {
            lemma_utf8_injective(presented@, token@);
        }
    }
    res
}

// -- origins ------------------------------------------------------------------------------
/// Names of this machine.
pub open spec fn is_loopback_name(h: Seq<char>) -> bool {
    h == "localhost"@ || h == "127.0.0.1"@ || h == "[::1]"@ || h == "::1"@
}

/// What follows the scheme of an origin.
pub open spec fn after_scheme(origin: Seq<char>) -> Seq<char> {
    let at = find_text(origin, "://"@);
    if at <= origin.len() {
        origin.skip(at + "://"@.len())
    } else {
        origin
    }
}

/// The host of an origin, its port included.
pub open spec fn origin_host(origin: Seq<char>) -> Seq<char> {
    let rest = after_scheme(origin);
    rest.take(find(rest, '/'))
}

/// A host without what follows its last colon.
pub open spec fn without_port(host: Seq<char>) -> Seq<char> {
    let at = rfind(host, ':');
    if at < 0 {
        host
    } else {
        host.take(at)
    }
}

/// A loopback origin on any port.
pub open spec fn loopback_origin(origin: Seq<char>) -> bool {
    let host = origin_host(origin);
    is_loopback_name(host) || is_loopback_name(without_port(host))
}

/// Whether a request with this origin may pass: requests without one do not come from a web
/// page.
pub open spec fn origin_passes(origin: Option<Seq<char>>, allowed: Seq<Seq<char>>) -> bool {
    match origin {
        None => true,
        Some(o) => allowed.contains(o) || loopback_origin(o),
    }
}

fn loopback_name(h: &str) -> (res: bool)
    ensures
        res == is_loopback_name(h@),
{
    same(h, "localhost") || same(h, "127.0.0.1") || same(h, "[::1]") || same(h, "::1")
}

fn is_loopback_origin(origin: &str) -> (res: bool)
    ensures
        res == loopback_origin(origin@),
{
    proof {
        reveal_strlit("://");
    }
    let c = to_chars(origin);
    let total: usize = c.len();
    assert("://"@.len() == 3);
    let start: usize = match find_str(c.as_slice(), "://") {
        Some(i) => i + 3,
        None => 0,
    };
    let rest = to_chars(slice_text(c.as_slice(), start, total).as_str());
    assert(rest@ =~= after_scheme(origin@));
    let end: usize = find_char(rest.as_slice(), '/');
    let host = slice_text(rest.as_slice(), 0, end);
    assert(host@ =~= origin_host(origin@));
    if loopback_name(host.as_str()) {
        return true;
    }
    let h = to_chars(host.as_str());
    match rfind_char(h.as_slice(), ':') {
        Some(at) => {
            let name = slice_text(h.as_slice(), 0, at);
            assert(name@ =~= without_port(host@));
            loopback_name(name.as_str())
        },
        None => false,
    }
}

// -- rate windows ------------------------------------------------------------------------------
/// A client's current window.
#[derive(Clone, Copy, Debug, PartialEq, Eq, Structural)]
pub struct Window {
    pub start: u64,
    pub count: u32,
}

/// The windows of all clients.
pub struct RateTable {
    windows: StringHashMap<Window>,
    /// The clients that have a window, in the order they came.
    clients: Vec<String>,
}

/// How long ago an instant was.
pub open spec fn age(now: u64, start: u64) -> int {
    if now >= start {
        now - start
    } else {
        0
    }
}

/// The windows that are not stale.
pub open spec fn fresh_windows(m: Map<Seq<char>, Window>, now: u64) -> Map<Seq<char>, Window> {
    m.restrict(m.dom().filter(|k: Seq<char>| age(now, m[k].start) < STALE_MS))
}

/// The windows after the cleanup that precedes a request.
pub open spec fn tidied(m: Map<Seq<char>, Window>, now: u64) -> Map<Seq<char>, Window> {
    if m.len() > MANY_CLIENTS {
        fresh_windows(m, now)
    } else {
        m
    }
}

/// A client's window after one more request.
pub open spec fn hit_window(w: Option<Window>, now: u64) -> Window {
    let base = match w {
        Some(w) => if age(now, w.start) >= WINDOW_MS {
            Window { start: now, count: 0 }
        } else {
            w
        },
        None => Window { start: now, count: 0 },
    };
    Window {
        start: base.start,
        count: if base.count == u32::MAX {
            u32::MAX
        } else {
            (base.count + 1) as u32
        },
    }
}

/// The window of a client.
pub open spec fn window_of(m: Map<Seq<char>, Window>, client: Seq<char>) -> Option<Window> {
    if m.contains_key(client) {
        Some(m[client])
    } else {
        None
    }
}

/// The windows after a request of `client`.
pub open spec fn hit(m: Map<Seq<char>, Window>, client: Seq<char>, now: u64) -> Map<
    Seq<char>,
    Window,
> {
    let t = tidied(m, now);
    t.insert(client, hit_window(window_of(t, client), now))
}

impl RateTable {
    pub closed spec fn view(self) -> Map<Seq<char>, Window> {
        self.windows@
    }

    /// The list of clients is that of the windows.
    pub closed spec fn wf(self) -> bool {
        &&& forall|k: Seq<char>|
            self.windows@.contains_key(k) <==> #[trigger] texts(self.clients@).contains(k)
    }

    /// No client has a window.
    pub fn new() -> (res: RateTable)
        ensures
            res.wf(),
            res@ == Map::<Seq<char>, Window>::empty(),
    {
        let clients: Vec<String> = Vec::new();
        let res = RateTable { windows: StringHashMap::new(), clients };
        assert(texts(res.clients@).len() == 0);
        res
    }

    /// Drops the stale windows.
    fn drop_stale(&mut self, now: u64)
        requires
            old(self).wf(),
        ensures
            final(self).wf(),
            final(self)@ == fresh_windows(old(self)@, now),
    {
        let ghost m = self.windows@;
        let mut windows: StringHashMap<Window> = StringHashMap::new();
        let mut kept: Vec<String> = Vec::new();
        let ghost all = texts(self.clients@);
        for i in 0..self.clients.len()
            invariant
                m == self.windows@,
                all == texts(self.clients@),
                self.wf(),
                forall|k: Seq<char>|
                    windows@.contains_key(k) <==> #[trigger] texts(kept@).contains(k),
                forall|k: Seq<char>| #[trigger]
                    windows@.contains_key(k) <==> all.take(i as int).contains(k) && m.contains_key(
                        k,
                    ) && age(now, m[k].start) < STALE_MS,
                forall|k: Seq<char>| #[trigger] windows@.contains_key(k) ==> windows@[k] == m[k],
        {
            let ghost prev = all.take(i as int);
            let ghost next = all.take(i + 1);
            let ghost key = self.clients@[i as int]@;
            assert(next =~= prev.push(key));
            assert forall|k: Seq<char>| next.contains(k) <==> prev.contains(k) || k == key by {
                if prev.contains(k) {
                    let j = choose|j: int| 0 <= j < prev.len() && prev[j] == k;
                    assert(next[j] == k);
                }
                if next.contains(k) {
                    let j = choose|j: int| 0 <= j < next.len() && next[j] == k;
                    if j < prev.len() {
                        assert(prev[j] == k);
                    }
                }
                assert(next[prev.len() as int] == key);
            }
            let known = self.windows.get(self.clients[i].as_str());
            if let Some(w) = known {
                let w: Window = *w;
                let young = if now >= w.start {
                    now - w.start < STALE_MS
                } else {
                    true
                };
                if young {
                    let ghost before = texts(kept@);
                    let ghost had = windows@;
                    let k1 = self.clients[i].clone();
                    let k2 = self.clients[i].clone();
                    windows.insert(k1, w);
                    proof {
                        crate::text::lemma_texts_push(kept@, k2);
                    }
                    kept.push(k2);
                    assert forall|k: Seq<char>|
                        windows@.contains_key(k) <==> #[trigger] texts(kept@).contains(k) by {
                        let after = texts(kept@);
                        assert(had.contains_key(k) <==> before.contains(k));
                        if before.contains(k) {
                            let j = choose|j: int| 0 <= j < before.len() && before[j] == k;
                            assert(after[j] == k);
                        }
                        if after.contains(k) {
                            let j = choose|j: int| 0 <= j < after.len() && after[j] == k;
                            if j < before.len() {
                                assert(before[j] == k);
                            }
                        }
                        assert(after[before.len() as int] == key);
                    }
                }
            }
        }
        assert(all.take(self.clients@.len() as int) =~= all);
        assert(windows@ =~= fresh_windows(m, now)) by {
            let want = fresh_windows(m, now);
            assert forall|k: Seq<char>| windows@.contains_key(k) <==> want.contains_key(k) by {
                assert(self.windows@.contains_key(k) <==> texts(self.clients@).contains(k));
            }
        }
        self.windows = windows;
        self.clients = kept;
    }

    /// Counts a request of `client` and returns how many it has made in its window.
    pub fn hit(&mut self, client: &str, now: u64) -> (res: u32)
        requires
            old(self).wf(),
        ensures
            final(self).wf(),
            final(self)@ == hit(old(self)@, client@, now),
            res == final(self)@[client@].count,
    {
        if self.windows.len() > MANY_CLIENTS {
            self.drop_stale(now);
        }
        let ghost t = self.windows@;
        let known = match self.windows.get(client) {
            Some(w) => Some(*w),
            None => None,
        };
        let base = match known {
            Some(w) => {
                let old_window = now >= w.start && now - w.start >= WINDOW_MS;
                if old_window {
                    Window { start: now, count: 0 }
                } else {
                    w
                }
            },
            None => Window { start: now, count: 0 },
        };
        let next = Window {
            start: base.start,
            count: if base.count == u32::MAX {
                u32::MAX
            } else {
                base.count + 1
            },
        };
        let ghost before = texts(self.clients@);
        if known.is_none() {
            let k = client.to_owned();
            proof {
                crate::text::lemma_texts_push(self.clients@, k);
            }
            self.clients.push(k);
        }
        self.windows.insert(client.to_owned(), next);
        assert forall|k: Seq<char>|
            self.windows@.contains_key(k) <==> #[trigger] texts(self.clients@).contains(k) by {
            let after = texts(self.clients@);
            assert(t.contains_key(k) <==> before.contains(k));
            if known is None {
                assert(after == before.push(client@));
                if before.contains(k) {
                    let j = choose|j: int| 0 <= j < before.len() && before[j] == k;
                    assert(after[j] == k);
                }
                if after.contains(k) {
                    let j = choose|j: int| 0 <= j < after.len() && after[j] == k;
                    if j < before.len() {
                        assert(before[j] == k);
                    }
                }
                assert(after[before.len() as int] == client@);
            }
        }
        next.count
    }
}

// -- the guard ------------------------------------------------------------------------------
/// The guard of the tool endpoint.
pub struct HttpGuard {
    /// When set, requests must present it.
    pub token: Option<String>,
    pub rate: RateTable,
    pub limit_per_minute: u32,
    /// Origins allowed besides loopback ones.
    pub allowed_origins: Vec<String>,
}

/// A refused request: its HTTP status, its JSON-RPC error code and message.
pub struct Rejection {
    pub status: u16,
    pub code: i64,
    pub message: String,
}

/// The model of a refusal.
pub struct RejectionView {
    pub status: int,
    pub code: int,
    pub message: Seq<char>,
}

impl Rejection {
    pub open spec fn view(self) -> RejectionView {
        RejectionView { status: self.status as int, code: self.code as int, message: self.message@ }
    }
}

/// The model of an optional refusal.
pub open spec fn opt_rejection(o: Option<Rejection>) -> Option<RejectionView> {
    match o {
        Some(r) => Some(r@),
        None => None,
    }
}

impl HttpGuard {
    /// Reads the guard's settings: the token where it is not empty, the rate limit, and the
    /// comma-separated origins.
    pub fn from_vars(token: Option<String>, rate_limit: Option<&str>, origins: Option<&str>) -> (res:
        HttpGuard)
        ensures
            res.wf(),
            opt_text(res.token) == non_empty(opt_text(token)),
            res.limit_per_minute == number_or(
                opt_str(rate_limit),
                u32::MAX as int,
                300,
            ),
            texts(res.allowed_origins@) == match origins {
                Some(o) => non_blank(split(o@, ',')),
                None => Seq::<Seq<char>>::empty(),
            },
            res.rate@ == Map::<Seq<char>, Window>::empty(),
    {
        let token = match token {
            Some(t) => if crate::text::is_empty(t.as_str()) {
                None
            } else {
                Some(t)
            },
            None => None,
        };
        let limit: u32 = match rate_limit {
            Some(v) => {
                let c = to_chars(v);
                match parse_unsigned(c.as_slice(), 0xffff_ffff) {
                    Some(n) => n as u32,
                    None => DEFAULT_RATE_LIMIT,
                }
            },
            None => DEFAULT_RATE_LIMIT,
        };
        let allowed_origins = match origins {
            Some(o) => non_blank_texts(o, ','),
            None => {
                let none: Vec<String> = Vec::new();
                assert(texts(none@) =~= Seq::<Seq<char>>::empty());
                none
            },
        };
        HttpGuard { token, rate: RateTable::new(), limit_per_minute: limit, allowed_origins }
    }

    pub open spec fn wf(self) -> bool {
        self.rate.wf()
    }

    /// DNS-rebinding protection: a web page of another origin sends an `Origin` header, which
    /// must then be a loopback one or on the list.
    pub fn origin_allowed(&self, origin: Option<&str>) -> (res: bool)
        ensures
            res == origin_passes(opt_str(origin), texts(self.allowed_origins@)),
    {
        let o = match origin {
            Some(o) => o,
            None => {
                return true;
            },
        };
        for i in 0..self.allowed_origins.len()
            invariant
                origin == Some(o),
                forall|k: int| 0 <= k < i ==> #[trigger] texts(self.allowed_origins@)[k] != o@,
        {
            assert(texts(self.allowed_origins@)[i as int] == self.allowed_origins@[i as int]@);
            if same(self.allowed_origins[i].as_str(), o) {
                return true;
            }
        }
        is_loopback_origin(o)
    }

    /// Counts a request of a client; false when it has exceeded the limit of its window.
    pub fn allow(&mut self, ip: &str, now: u64) -> (res: bool)
        requires
            old(self).wf(),
        ensures
            final(self).wf(),
            final(self).rate@ == hit(old(self).rate@, ip@, now),
            res == (final(self).rate@[ip@].count <= old(self).limit_per_minute),
            final(self).token == old(self).token,
            final(self).limit_per_minute == old(self).limit_per_minute,
            final(self).allowed_origins == old(self).allowed_origins,
    {
        let count: u32 = self.rate.hit(ip, now);
        count <= self.limit_per_minute
    }

    /// The verdict on a request. The origin comes first, and a request refused for it is not
    /// counted; then the rate; then the token.
    pub open spec fn verdict(
        self,
        origin: Option<Seq<char>>,
        ip: Seq<char>,
        authorization: Option<Seq<char>>,
        now: u64,
    ) -> Option<RejectionView> {
        if !origin_passes(origin, texts(self.allowed_origins@)) {
            Some(
                RejectionView {
                    status: 403,
                    code: -32003,
                    message:
                        "forbidden: cross-origin request rejected (DNS-rebinding protection); set MCP_ALLOWED_ORIGINS to allow-list an origin"@,
                },
            )
        } else if hit(self.rate@, ip, now)[ip].count > self.limit_per_minute {
            Some(
                RejectionView {
                    status: 429,
                    code: -32000,
                    message: "rate limit exceeded — retry later"@,
                },
            )
        } else if self.token is Some && bearer(authorization) != Some(self.token.unwrap()@) {
            Some(
                RejectionView {
                    status: 401,
                    code: -32001,
                    message: "unauthorized: missing or invalid bearer token"@,
                },
            )
        } else {
            None
        }
    }

    /// Judges a request: `None` when it may pass.
    pub fn guard_middleware(
        &mut self,
        origin: Option<&str>,
        ip: &str,
        authorization: Option<&str>,
        now: u64,
    ) -> (res: Option<Rejection>)
        requires
            old(self).wf(),
        ensures
            final(self).wf(),
            opt_rejection(res) == old(self).verdict(
                opt_str(origin),
                ip@,
                opt_str(authorization),
                now,
            ),
            final(self).rate@ == if origin_passes(
                opt_str(origin),
                texts(old(self).allowed_origins@),
            ) {
                hit(old(self).rate@, ip@, now)
            } else {
                old(self).rate@
            },
            final(self).token == old(self).token,
            final(self).limit_per_minute == old(self).limit_per_minute,
            final(self).allowed_origins == old(self).allowed_origins,
    {
        if !self.origin_allowed(origin) {
            return Some(
                Rejection {
                    status: 403,
                    code: -32003,
                    message:
                        "forbidden: cross-origin request rejected (DNS-rebinding protection); set MCP_ALLOWED_ORIGINS to allow-list an origin".to_owned(),
                },
            );
        }
        if !self.allow(ip, now) {
            return Some(
                Rejection {
                    status: 429,
                    code: -32000,
                    message: "rate limit exceeded — retry later".to_owned(),
                },
            );
        }
        if let Some(token) = &self.token {
            if !presents_token(authorization, token.as_str()) {
                return Some(
                    Rejection {
                        status: 401,
                        code: -32001,
                        message: "unauthorized: missing or invalid bearer token".to_owned(),
                    },
                );
            }
        }
        None
    }
}

/// The number of a JSON-RPC error code.
pub open spec fn code_number(code: int) -> NumberView {
    if code < 0 {
        NumberView::NegInt(code)
    } else {
        NumberView::PosInt(code)
    }
}

/// The JSON-RPC body of a refusal.
pub open spec fn rpc_body(code: int, message: Seq<char>) -> JsonView {
    JsonView::Object(
        seq![
            (
                "error"@,
                JsonView::Object(
                    seq![
                        ("code"@, JsonView::Num(code_number(code))),
                        ("message"@, JsonView::Str(message)),
                    ],
                ),
            ),
            ("id"@, JsonView::Null),
            ("jsonrpc"@, JsonView::Str("2.0"@)),
        ],
    )
}

/// The JSON-RPC body of a refusal as text.
pub fn rpc_error(rejection: &Rejection) -> (res: String)
    ensures
        res@ == json_text(rpc_body(rejection.code as int, rejection.message@)),
{
    let number = if rejection.code < 0 {
        Number::NegInt(rejection.code)
    } else {
        Number::PosInt(rejection.code as u64)
    };
    let mut inner: Vec<(String, Json)> = Vec::new();
    inner.push(("code".to_owned(), Json::Num(number)));
    inner.push(("message".to_owned(), Json::Str(rejection.message.clone())));
    let ghost inner_want = seq![
        ("code"@, JsonView::Num(code_number(rejection.code as int))),
        ("message"@, JsonView::Str(rejection.message@)),
    ];
    assert(member_views(inner@) =~= inner_want);
    let error = Json::Object(inner);
    proof {
        crate::json::lemma_array_view(error);
    }
    let mut outer: Vec<(String, Json)> = Vec::new();
    outer.push(("error".to_owned(), error));
    outer.push(("id".to_owned(), Json::Null));
    outer.push(("jsonrpc".to_owned(), Json::Str("2.0".to_owned())));
    let ghost outer_want = seq![
        ("error"@, JsonView::Object(inner_want)),
        ("id"@, JsonView::Null),
        ("jsonrpc"@, JsonView::Str("2.0"@)),
    ];
    assert(member_views(outer@) =~= outer_want);
    let body = Json::Object(outer);
    proof {
        crate::json::lemma_array_view(body);
    }
    body.to_text()
}

// -- laws ------------------------------------------------------------------------------
/// Dropping stale windows changes no count: a request is counted from the client's window as if
/// nothing had been dropped.
pub proof fn law_cleanup_changes_no_count(
    m: Map<Seq<char>, Window>,
    client: Seq<char>,
    now: u64,
)
    ensures
        hit(m, client, now)[client] == hit_window(window_of(m, client), now),
{
}

/// A client's requests never count against another: whatever `client` does, the next request of
/// `other` is counted as it would have been without it.
pub proof fn law_clients_are_independent(
    m: Map<Seq<char>, Window>,
    client: Seq<char>,
    other: Seq<char>,
    now: u64,
    later: u64,
)
    requires
        client != other,
        now <= later,
    ensures
        hit(hit(m, client, now), other, later)[other] == hit(m, other, later)[other],
{
    law_cleanup_changes_no_count(m, other, later);
    law_cleanup_changes_no_count(hit(m, client, now), other, later);
}

/// A client's window after a series of requests, given their instants.
pub open spec fn window_after(w: Option<Window>, times: Seq<u64>) -> Option<Window>
    decreases times.len(),
{
    if times.len() == 0 {
        w
    } else {
        Some(hit_window(window_after(w, times.drop_last()), times.last()))
    }
}

/// The requests of one window are counted one by one, up to the largest count there is: the
/// first of them opens the window, and all within its length fall into it.
pub proof fn law_limit_is_exact(w: Option<Window>, times: Seq<u64>)
    requires
        0 < times.len(),
        w matches Some(before) ==> age(times[0], before.start) >= WINDOW_MS,
        forall|i: int| 0 <= i < times.len() ==> age(#[trigger] times[i], times[0]) < WINDOW_MS,
    ensures
        window_after(w, times) == Some(
            Window {
                start: times[0],
                count: if times.len() <= u32::MAX {
                    times.len() as u32
                } else {
                    u32::MAX
                },
            },
        ),
    decreases times.len(),
{
    let front = times.drop_last();
    if times.len() == 1 {
        assert(window_after(w, front) == w);
    } else {
        assert forall|i: int| 0 <= i < front.len() implies age(#[trigger] front[i], front[0])
            < WINDOW_MS by {
            assert(front[i] == times[i]);
        }
        law_limit_is_exact(w, front);
        assert(times[times.len() - 1] == times.last());
    }
}

/// The windows after a series of requests, given who asked and when.
pub open spec fn hits(m: Map<Seq<char>, Window>, requests: Seq<(Seq<char>, u64)>) -> Map<
    Seq<char>,
    Window,
>
    decreases requests.len(),
{
    if requests.len() == 0 {
        m
    } else {
        hit(hits(m, requests.drop_last()), requests.last().0, requests.last().1)
    }
}

/// The instants of a client's requests in a series.
pub open spec fn instants(requests: Seq<(Seq<char>, u64)>, client: Seq<char>) -> Seq<u64>
    decreases requests.len(),
{
    if requests.len() == 0 {
        Seq::empty()
    } else {
        let before = instants(requests.drop_last(), client);
        if requests.last().0 == client {
            before.push(requests.last().1)
        } else {
            before
        }
    }
}

/// Whether no request of a series comes before an earlier one.
pub open spec fn in_order(requests: Seq<(Seq<char>, u64)>) -> bool {
    forall|i: int, j: int|
        0 <= i <= j < requests.len() ==> (#[trigger] requests[i]).1 <= (#[trigger] requests[j]).1
}

/// Whether two windows count the next request alike, at `now` or later: they are the same, or
/// the first was dropped and the second is stale.
pub open spec fn count_alike(w: Option<Window>, kept: Option<Window>, now: u64) -> bool {
    ||| w == kept
    ||| w is None && (kept matches Some(k) && age(now, k.start) >= STALE_MS)
}

proof fn lemma_series_counts_alike(
    m: Map<Seq<char>, Window>,
    requests: Seq<(Seq<char>, u64)>,
    client: Seq<char>,
    now: u64,
)
    requires
        in_order(requests),
        requests.len() > 0 ==> requests.last().1 <= now,
    ensures
        count_alike(
            window_of(hits(m, requests), client),
            window_after(window_of(m, client), instants(requests, client)),
            now,
        ),
    decreases requests.len(),
{
    if requests.len() > 0 {
        let front = requests.drop_last();
        let at = requests.last().1;
        assert forall|i: int, j: int| 0 <= i <= j < front.len() implies (#[trigger] front[i]).1
            <= (#[trigger] front[j]).1 by {
            assert(front[i] == requests[i] && front[j] == requests[j]);
        }
        if front.len() > 0 {
            assert(front.last() == requests[requests.len() - 2]);
            assert(requests.last() == requests[requests.len() - 1]);
        }
        lemma_series_counts_alike(m, front, client, at);
        let kept = window_after(window_of(m, client), instants(front, client));
        assert(count_alike(window_of(tidied(hits(m, front), at), client), kept, at));
        if requests.last().0 == client {
            assert(instants(requests, client).drop_last() =~= instants(front, client));
        }
    }
}

/// The limit is exact for each client, whatever the others do in between: of the requests that a
/// client makes within a window's length of the one that opened the window, the `k`-th passes
/// exactly when `k` does not exceed the limit. A request opens a window when it is the client's
/// first, or when the client's last window opened a window's length or longer ago.
pub proof fn law_limit_holds_among_clients(
    m: Map<Seq<char>, Window>,
    requests: Seq<(Seq<char>, u64)>,
    client: Seq<char>,
    limit: u32,
)
    requires
        in_order(requests),
        requests.len() > 0,
        requests.last().0 == client,
        window_of(m, client) matches Some(before) ==> age(
            instants(requests, client)[0],
            before.start,
        ) >= WINDOW_MS,
        forall|i: int|
            0 <= i < instants(requests, client).len() ==> age(
                #[trigger] instants(requests, client)[i],
                instants(requests, client)[0],
            ) < WINDOW_MS,
        instants(requests, client).len() <= u32::MAX || limit < u32::MAX,
    ensures
        (hits(m, requests)[client].count <= limit) == (instants(requests, client).len() <= limit),
{
    let own = instants(requests, client);
    assert(own.last() == requests.last().1);
    law_limit_is_exact(window_of(m, client), own);
    lemma_series_counts_alike(m, requests, client, requests.last().1);
    assert(own[own.len() - 1] == own.last());
}

/// With a token configured, no request passes that does not present it.
pub proof fn law_token_is_required(
    guard: HttpGuard,
    origin: Option<Seq<char>>,
    ip: Seq<char>,
    authorization: Option<Seq<char>>,
    now: u64,
)
    requires
        guard.token is Some,
        guard.verdict(origin, ip, authorization, now) is None,
    ensures
        bearer(authorization) == Some(guard.token.unwrap()@),
{
}

/// A header presents the token that stands behind `Bearer `, as it stands; any other header, and
/// none, presents nothing.
pub proof fn law_bearer_tokens(token: Seq<char>, header: Seq<char>)
    ensures
        bearer(Some("Bearer "@ + token)) == Some(token),
        bearer(Some(header)) matches Some(t) ==> header == "Bearer "@ + t,
        bearer(None) is None,
{
    let whole = "Bearer "@ + token;
    assert(whole.take("Bearer "@.len() as int) =~= "Bearer "@);
    assert(whole.skip("Bearer "@.len() as int) =~= token);
    if starts_with(header, "Bearer "@) {
        assert(header =~= "Bearer "@ + header.skip("Bearer "@.len() as int));
    }
}

/// A client's window: its first request opens one, and so does the first that comes a minute or
/// later after the last was opened; every other request is counted in the open one, up to the
/// largest count there is.
pub proof fn law_windows_last_a_minute(w: Window, now: u64)
    ensures
        hit_window(None, now) == (Window { start: now, count: 1 }),
        now >= w.start && now - w.start >= 60_000 ==> hit_window(Some(w), now) == (Window {
            start: now,
            count: 1,
        }),
        now < w.start || now - w.start < 60_000 ==> hit_window(Some(w), now).start == w.start,
        (now < w.start || now - w.start < 60_000) && w.count < u32::MAX ==> hit_window(
            Some(w),
            now,
        ).count == w.count + 1,
        (now < w.start || now - w.start < 60_000) && w.count == u32::MAX ==> hit_window(
            Some(w),
            now,
        ).count == u32::MAX,
{
}

/// A request changes the window of its own client. Of the others none is touched while there are
/// at most 1024 of them; beyond that those that were opened two minutes ago or earlier go, and no
/// others.
pub proof fn law_request_touches_its_client(
    m: Map<Seq<char>, Window>,
    client: Seq<char>,
    other: Seq<char>,
    now: u64,
)
    requires
        client != other,
    ensures
        hit(m, client, now).contains_key(client),
        m.len() <= 1024 ==> (hit(m, client, now).contains_key(other) <==> m.contains_key(other)),
        m.len() > 1024 ==> (hit(m, client, now).contains_key(other) <==> m.contains_key(other) && (
        now < m[other].start || now - m[other].start < 120_000)),
        hit(m, client, now).contains_key(other) ==> hit(m, client, now)[other] == m[other],
        m.contains_key(client) ==> hit(m, client, now)[client] == hit_window(Some(m[client]), now),
        !m.contains_key(client) ==> hit(m, client, now)[client] == hit_window(None, now),
{
    law_cleanup_changes_no_count(m, client, now);
}

/// The host of an origin stands between the scheme, where there is one, and the first slash
/// behind it.
pub proof fn law_host_of_an_origin(scheme: Seq<char>, host: Seq<char>, path: Seq<char>)
    requires
        find_text(scheme + "://"@ + host + path, "://"@) == scheme.len(),
        !host.contains('/'),
        path.len() == 0 || path[0] == '/',
    ensures
        origin_host(scheme + "://"@ + host + path) == host,
{
    let o = scheme + "://"@ + host + path;
    let rest = host + path;
    assert(o.skip(scheme.len() + "://"@.len() as int) =~= rest);
    assert(after_scheme(o) =~= rest);
    law_find_is_first(rest, '/');
    let f = find(rest, '/');
    if f < host.len() {
        assert(rest[f] == host[f]);
        assert(host.contains(host[f]));
    }
    if path.len() > 0 {
        assert(rest[host.len() as int] == '/');
    }
    assert(f == host.len());
    assert(rest.take(f) =~= host);
}

/// The host of any text that is taken for an origin: what stands behind its first `://`, or the
/// text itself without one, up to the first slash.
pub proof fn law_host_of_any_origin(origin: Seq<char>, rest: Seq<char>)
    requires
        rest == (if find_text(origin, "://"@) <= origin.len() {
            origin.skip(find_text(origin, "://"@) + 3)
        } else {
            origin
        }),
    ensures
        origin_host(origin) == rest.take(find(rest, '/')),
{
    reveal_strlit("://");
}

/// Which origins pass: none at all, those on the list, as they stand there, and those whose host
/// is this machine, on any port.
pub proof fn law_origins_that_pass(origin: Seq<char>, allowed: Seq<Seq<char>>)
    ensures
        origin_passes(None, allowed),
        allowed.contains(origin) ==> origin_passes(Some(origin), allowed),
        !allowed.contains(origin) ==> (origin_passes(Some(origin), allowed) <==> ({
            let host = origin_host(origin);
            let bare = without_port(host);
            host == "localhost"@ || host == "127.0.0.1"@ || host == "[::1]"@ || host == "::1"@
                || bare == "localhost"@ || bare == "127.0.0.1"@ || bare == "[::1]"@ || bare
                == "::1"@
        })),
{
}

/// A host without its port is what stands before its last colon, and the host itself where it
/// has none.
pub proof fn law_host_without_port(host: Seq<char>, port: Seq<char>)
    requires
        !port.contains(':'),
    ensures
        without_port(host.push(':') + port) == host,
        without_port(port) == port,
{
    let s = host.push(':') + port;
    law_rfind_is_last(s, ':');
    law_rfind_is_last(port, ':');
    let r = rfind(s, ':');
    assert(s[host.len() as int] == ':');
    if r > host.len() {
        assert(s[r] == port[r - host.len() - 1]);
        assert(port.contains(port[r - host.len() - 1]));
    }
    assert(s.take(host.len() as int) =~= host);
}

/// The verdict on a request: a foreign origin first, then too many requests, then a missing
/// token; each with its own status and code.
pub proof fn law_verdicts(
    guard: HttpGuard,
    origin: Option<Seq<char>>,
    ip: Seq<char>,
    authorization: Option<Seq<char>>,
    now: u64,
)
    ensures
        ({
            let v = guard.verdict(origin, ip, authorization, now);
            let foreign = !origin_passes(origin, texts(guard.allowed_origins@));
            let over = hit(guard.rate@, ip, now)[ip].count > guard.limit_per_minute;
            let unknown = guard.token is Some && bearer(authorization) != Some(
                guard.token.unwrap()@,
            );
            &&& v is None <==> !foreign && !over && !unknown
            &&& foreign ==> v is Some && v.unwrap().status == 403 && v.unwrap().code == -32003
                && v.unwrap().message
                == "forbidden: cross-origin request rejected (DNS-rebinding protection); set MCP_ALLOWED_ORIGINS to allow-list an origin"@
            &&& !foreign && over ==> v is Some && v.unwrap().status == 429 && v.unwrap().code
                == -32000 && v.unwrap().message == "rate limit exceeded — retry later"@
            &&& !foreign && !over && unknown ==> v is Some && v.unwrap().status == 401
                && v.unwrap().code == -32001 && v.unwrap().message
                == "unauthorized: missing or invalid bearer token"@
        }),
{
}

/// The body of a refusal is a JSON-RPC error without an id, with the code and the message.
pub proof fn law_body_of_a_refusal(code: int, message: Seq<char>, r: Rejection)
    ensures
        code < 0 ==> rpc_body(code, message) == JsonView::Object(
            seq![
                (
                    "error"@,
                    JsonView::Object(
                        seq![
                            ("code"@, JsonView::Num(NumberView::NegInt(code))),
                            ("message"@, JsonView::Str(message)),
                        ],
                    ),
                ),
                ("id"@, JsonView::Null),
                ("jsonrpc"@, JsonView::Str("2.0"@)),
            ],
        ),
        r@.status == r.status,
        r@.code == r.code,
        r@.message == r.message@,
        opt_rejection(Some(r)) == Some(r@),
        opt_rejection(None) is None,
{
}

} // verus!
