//! The payloads that the tools return.
use crate::capture::{ConsoleMessage, NetworkRequest};
use crate::json::{member_views, views, Json, JsonView, Number, NumberView};
use crate::page::{filled, ok_count, FieldOutcome, PageInfo};
use crate::text::{byte_len, lemma_byte_len, opt_text, texts};
use crate::wait::AssertOutcome;
use vstd::prelude::*;
use vstd::string::*;

verus! {

/// An object under construction.
pub struct ObjectBuilder {
    pub members: Vec<(String, Json)>,
}

impl ObjectBuilder {
    /// An object without members.
    pub fn new() -> (res: ObjectBuilder)
        ensures
            member_views(res.members@) == Seq::<(Seq<char>, JsonView)>::empty(),
    {
        let res = ObjectBuilder { members: Vec::new() };
        assert(member_views(res.members@) =~= Seq::<(Seq<char>, JsonView)>::empty());
        res
    }

    /// Adds a member.
    pub fn put(&mut self, key: &str, value: Json)
        ensures
            member_views(final(self).members@) == member_views(old(self).members@).push(
                (key@, value@),
            ),
    {
        let ghost before = self.members@;
        self.members.push((key.to_owned(), value));
        assert(member_views(self.members@) =~= member_views(before).push((key@, value@)));
    }

    /// The object.
    pub fn done(self) -> (res: Json)
        ensures
            res@ == JsonView::Object(member_views(self.members@)),
    {
        let res = Json::Object(self.members);
        proof {
            crate::json::lemma_array_view(res);
        }
        res
    }
}

// -- encoding ------------------------------------------------------------------------------
/// A character of the standard base64 alphabet.
pub open spec fn base64_char(n: int) -> char {
    if n < 26 {
        (65 + n) as char
    } else if n < 52 {
        (71 + n) as char
    } else if n < 62 {
        (n - 4) as char
    } else if n == 62 {
        '+'
    } else {
        '/'
    }
}

/// Standard base64 with padding: three bytes become four characters.
pub open spec fn base64_text(data: Seq<u8>) -> Seq<char>
    decreases data.len(),
{
    if data.len() == 0 {
        Seq::empty()
    } else if data.len() == 1 {
        let a = data[0] as int;
        seq![base64_char(a / 4), base64_char((a % 4) * 16), '=', '=']
    } else if data.len() == 2 {
        let a = data[0] as int;
        let b = data[1] as int;
        seq![
            base64_char(a / 4),
            base64_char((a % 4) * 16 + b / 16),
            base64_char((b % 16) * 4),
            '=',
        ]
    } else {
        let a = data[0] as int;
        let b = data[1] as int;
        let c = data[2] as int;
        seq![
            base64_char(a / 4),
            base64_char((a % 4) * 16 + b / 16),
            base64_char((b % 16) * 4 + c / 64),
            base64_char(c % 64),
        ] + base64_text(data.skip(3))
    }
}

/// `base64::engine::general_purpose::STANDARD.encode`: the standard alphabet with padding.
#[verifier::external_body]
fn encode_base64(data: &[u8]) -> (res: String)
    ensures
        res@ == base64_text(data@),
{
    base64::Engine::encode(&base64::engine::general_purpose::STANDARD, data)
}

/// A screenshot as image content.
pub fn browser_screenshot(png: &[u8]) -> (res: String)
    ensures
        res@ == base64_text(png@),
{
    encode_base64(png)
}

// -- payloads ------------------------------------------------------------------------------
/// A number of the payload.
pub open spec fn count_view(n: int) -> JsonView {
    JsonView::Num(NumberView::PosInt(n))
}

/// A text of the payload.
pub open spec fn text_view(s: Seq<char>) -> JsonView {
    JsonView::Str(s)
}

/// A text of the payload that may be missing.
pub open spec fn opt_view_text(o: Option<Seq<char>>) -> JsonView {
    match o {
        Some(s) => JsonView::Str(s),
        None => JsonView::Null,
    }
}

/// A text, or a default.
pub open spec fn text_or(o: Option<&str>, default: Seq<char>) -> Seq<char> {
    match o {
        Some(s) => s@,
        None => default,
    }
}

fn or_text<'a>(o: Option<&'a str>, default: &'a str) -> (res: &'a str)
    ensures
        res@ == text_or(o, default@),
{
    match o {
        Some(s) => s,
        None => default,
    }
}

fn text_json(s: &str) -> (res: Json)
    ensures
        res@ == text_view(s@),
{
    Json::Str(s.to_owned())
}

fn count_json(n: u64) -> (res: Json)
    ensures
        res@ == count_view(n as int),
{
    Json::Num(Number::PosInt(n))
}

fn opt_json(o: &Option<String>) -> (res: Json)
    ensures
        res@ == opt_view_text(opt_text(*o)),
{
    match o {
        Some(s) => Json::Str(s.clone()),
        None => Json::Null,
    }
}

fn one(key: &str, value: Json) -> (res: Json)
    ensures
        res@ == JsonView::Object(seq![(key@, value@)]),
{
    let mut o = ObjectBuilder::new();
    o.put(key, value);
    assert(member_views(o.members@) =~= seq![(key@, value@)]);
    o.done()
}

fn two(k1: &str, v1: Json, k2: &str, v2: Json) -> (res: Json)
    ensures
        res@ == JsonView::Object(seq![(k1@, v1@), (k2@, v2@)]),
{
    let mut o = ObjectBuilder::new();
    o.put(k1, v1);
    o.put(k2, v2);
    assert(member_views(o.members@) =~= seq![(k1@, v1@), (k2@, v2@)]);
    o.done()
}

fn three(k1: &str, v1: Json, k2: &str, v2: Json, k3: &str, v3: Json) -> (res: Json)
    ensures
        res@ == JsonView::Object(seq![(k1@, v1@), (k2@, v2@), (k3@, v3@)]),
{
    let mut o = ObjectBuilder::new();
    o.put(k1, v1);
    o.put(k2, v2);
    o.put(k3, v3);
    assert(member_views(o.members@) =~= seq![(k1@, v1@), (k2@, v2@), (k3@, v3@)]);
    o.done()
}

fn array(items: Vec<Json>) -> (res: Json)
    ensures
        res@ == JsonView::Array(views(items@)),
{
    let res = Json::Array(items);
    proof {
        crate::json::lemma_array_view(res);
    }
    res
}

/// What a navigation returns.
pub fn browser_navigate(info: &PageInfo) -> (res: Json)
    ensures
        res@ == JsonView::Object(
            seq![
                ("text"@, text_view(info.text@)),
                ("title"@, text_view(info.title@)),
                ("url"@, text_view(info.url@)),
            ],
        ),
{
    three(
        "text",
        text_json(info.text.as_str()),
        "title",
        text_json(info.title.as_str()),
        "url",
        text_json(info.url.as_str()),
    )
}

/// What a step back in the history returns.
pub fn browser_navigate_back(info: &PageInfo) -> (res: Json)
    ensures
        res@ == JsonView::Object(
            seq![("title"@, text_view(info.title@)), ("url"@, text_view(info.url@))],
        ),
{
    two("title", text_json(info.title.as_str()), "url", text_json(info.url.as_str()))
}

/// Texts as JSON strings.
pub open spec fn text_views(v: Seq<Seq<char>>) -> Seq<JsonView> {
    v.map_values(|s: Seq<char>| text_view(s))
}

/// What an extraction returns.
pub fn browser_extract(selector: &str, values: &Vec<String>) -> (res: Json)
    ensures
        res@ == JsonView::Object(
            seq![
                ("matches"@, count_view(values@.len() as int)),
                ("selector"@, text_view(selector@)),
                ("values"@, JsonView::Array(text_views(texts(values@)))),
            ],
        ),
{
    let ghost want = text_views(texts(values@));
    let mut items: Vec<Json> = Vec::new();
    for i in 0..values.len()
        invariant
            want == text_views(texts(values@)),
            views(items@) == want.take(i as int),
    {
        let ghost before = items@;
        let j = text_json(values[i].as_str());
        items.push(j);
        assert(views(items@) =~= views(before).push(j@));
        assert(want.take(i + 1) =~= want.take(i as int).push(j@));
    }
    assert(want.take(values@.len() as int) =~= want);
    three(
        "matches",
        count_json(values.len() as u64),
        "selector",
        text_json(selector),
        "values",
        array(items),
    )
}

/// What setting content returns: its size in bytes and what was waited for.
pub fn browser_set_content(html: &str, wait_until: Option<&str>) -> (res: Json)
    ensures
        res@ == JsonView::Object(
            seq![
                ("bytes"@, count_view(byte_len(html@))),
                ("ok"@, JsonView::Bool(true)),
                ("wait_until"@, text_view(text_or(wait_until, "load"@))),
            ],
        ),
{
    proof {
        lemma_byte_len(html@);
    }
    let raw = html.as_bytes();
    let bytes: usize = raw.len();
    assert(bytes == byte_len(html@));
    let waited = or_text(wait_until, "load");
    three(
        "bytes",
        count_json(bytes as u64),
        "ok",
        Json::Bool(true),
        "wait_until",
        text_json(waited),
    )
}

/// What printing returns: the document in base64, its size, and the paper size asked for.
pub fn browser_pdf(format: Option<&str>, pdf: &[u8]) -> (res: Json)
    ensures
        res@ == JsonView::Object(
            seq![
                ("base64"@, text_view(base64_text(pdf@))),
                ("bytes"@, count_view(pdf@.len() as int)),
                ("format"@, text_view(text_or(format, "A4"@))),
            ],
        ),
{
    let b64 = encode_base64(pdf);
    let name = or_text(format, "A4");
    three(
        "base64",
        Json::Str(b64),
        "bytes",
        count_json(pdf.len() as u64),
        "format",
        text_json(name),
    )
}

/// A console message of the payload.
pub open spec fn message_json_view(m: ConsoleMessage) -> JsonView {
    JsonView::Object(seq![("level"@, text_view(m.level@)), ("text"@, text_view(m.text@))])
}

/// The captured console messages.
pub fn browser_console(messages: &Vec<ConsoleMessage>) -> (res: Json)
    ensures
        res@ == JsonView::Object(
            seq![
                ("count"@, count_view(messages@.len() as int)),
                (
                    "messages"@,
                    JsonView::Array(messages@.map_values(|m: ConsoleMessage| message_json_view(m))),
                ),
            ],
        ),
{
    let ghost want = messages@.map_values(|m: ConsoleMessage| message_json_view(m));
    let mut items: Vec<Json> = Vec::new();
    for i in 0..messages.len()
        invariant
            want == messages@.map_values(|m: ConsoleMessage| message_json_view(m)),
            views(items@) == want.take(i as int),
    {
        let ghost before = items@;
        let m = &messages[i];
        let j = two("level", text_json(m.level.as_str()), "text", text_json(m.text.as_str()));
        items.push(j);
        assert(views(items@) =~= views(before).push(j@));
        assert(want.take(i + 1) =~= want.take(i as int).push(j@));
    }
    assert(want.take(messages@.len() as int) =~= want);
    two("count", count_json(messages.len() as u64), "messages", array(items))
}

/// The status of a request, once there is one.
pub open spec fn status_view(status: Option<i64>) -> JsonView {
    match status {
        Some(n) => JsonView::Num(
            if n < 0 {
                NumberView::NegInt(n as int)
            } else {
                NumberView::PosInt(n as int)
            },
        ),
        None => JsonView::Null,
    }
}

/// A network request of the payload; its protocol id is left out.
pub open spec fn request_json_view(r: NetworkRequest) -> JsonView {
    JsonView::Object(
        seq![
            ("method"@, text_view(r.method@)),
            ("resource_type"@, opt_view_text(opt_text(r.resource_type))),
            ("status"@, status_view(r.status)),
            ("url"@, text_view(r.url@)),
        ],
    )
}

fn request_json(r: &NetworkRequest) -> (res: Json)
    ensures
        res@ == request_json_view(*r),
{
    let status = match r.status {
        Some(n) => if n < 0 {
            Json::Num(Number::NegInt(n))
        } else {
            Json::Num(Number::PosInt(n as u64))
        },
        None => Json::Null,
    };
    let mut o = ObjectBuilder::new();
    o.put("method", text_json(r.method.as_str()));
    o.put("resource_type", opt_json(&r.resource_type));
    o.put("status", status);
    o.put("url", text_json(r.url.as_str()));
    assert(JsonView::Object(member_views(o.members@)) == request_json_view(*r)) by {
        assert(member_views(o.members@) =~= request_json_view(*r)->Object_0);
    }
    o.done()
}

/// The captured network requests.
pub fn browser_network(requests: &Vec<NetworkRequest>) -> (res: Json)
    ensures
        res@ == JsonView::Object(
            seq![
                ("count"@, count_view(requests@.len() as int)),
                (
                    "requests"@,
                    JsonView::Array(requests@.map_values(|r: NetworkRequest| request_json_view(r))),
                ),
            ],
        ),
{
    let ghost want = requests@.map_values(|r: NetworkRequest| request_json_view(r));
    let mut items: Vec<Json> = Vec::new();
    for i in 0..requests.len()
        invariant
            want == requests@.map_values(|r: NetworkRequest| request_json_view(r)),
            views(items@) == want.take(i as int),
    {
        let ghost before = items@;
        let j = request_json(&requests[i]);
        items.push(j);
        assert(views(items@) =~= views(before).push(j@));
        assert(want.take(i + 1) =~= want.take(i as int).push(j@));
    }
    assert(want.take(requests@.len() as int) =~= want);
    two("count", count_json(requests.len() as u64), "requests", array(items))
}

/// What a click returns.
pub fn browser_click(selector: &str) -> (res: Json)
    ensures
        res@ == JsonView::Object(seq![("clicked"@, text_view(selector@))]),
{
    one("clicked", text_json(selector))
}

/// What typing returns.
pub fn browser_type(text: &str, selector: &str, press_enter: bool) -> (res: Json)
    ensures
        res@ == JsonView::Object(
            seq![
                ("pressed_enter"@, JsonView::Bool(press_enter)),
                ("selector"@, text_view(selector@)),
                ("typed"@, text_view(text@)),
            ],
        ),
{
    three(
        "pressed_enter",
        Json::Bool(press_enter),
        "selector",
        text_json(selector),
        "typed",
        text_json(text),
    )
}

/// What filling in a secret returns: the field, never the secret.
pub fn browser_fill_secret(selector: &str, press_enter: bool) -> (res: Json)
    ensures
        res@ == JsonView::Object(
            seq![
                ("pressed_enter"@, JsonView::Bool(press_enter)),
                ("selector"@, text_view(selector@)),
            ],
        ),
{
    two("pressed_enter", Json::Bool(press_enter), "selector", text_json(selector))
}

/// What a key press returns.
pub fn browser_press_key(key: &str) -> (res: Json)
    ensures
        res@ == JsonView::Object(seq![("pressed"@, text_view(key@))]),
{
    one("pressed", text_json(key))
}

/// What a wait returns.
pub fn browser_wait_for(elapsed_ms: u64) -> (res: Json)
    ensures
        res@ == JsonView::Object(seq![("elapsed_ms"@, count_view(elapsed_ms as int))]),
{
    one("elapsed_ms", count_json(elapsed_ms))
}

/// A field's outcome of the payload.
pub open spec fn outcome_json_view(o: FieldOutcome) -> JsonView {
    JsonView::Object(
        seq![
            ("error"@, opt_view_text(opt_text(o.error))),
            ("ok"@, JsonView::Bool(o.ok)),
            ("selector"@, text_view(o.selector@)),
        ],
    )
}

/// What filling a form returns: each field's outcome and how many succeeded.
pub fn browser_fill_form(outcomes: &Vec<FieldOutcome>) -> (res: Json)
    ensures
        res@ == JsonView::Object(
            seq![
                (
                    "fields"@,
                    JsonView::Array(outcomes@.map_values(|o: FieldOutcome| outcome_json_view(o))),
                ),
                ("filled"@, count_view(ok_count(outcomes@))),
                ("total"@, count_view(outcomes@.len() as int)),
            ],
        ),
{
    let ghost want = outcomes@.map_values(|o: FieldOutcome| outcome_json_view(o));
    let mut items: Vec<Json> = Vec::new();
    for i in 0..outcomes.len()
        invariant
            want == outcomes@.map_values(|o: FieldOutcome| outcome_json_view(o)),
            views(items@) == want.take(i as int),
    {
        let ghost before = items@;
        let o = &outcomes[i];
        let j = three(
            "error",
            opt_json(&o.error),
            "ok",
            Json::Bool(o.ok),
            "selector",
            text_json(o.selector.as_str()),
        );
        items.push(j);
        assert(views(items@) =~= views(before).push(j@));
        assert(want.take(i + 1) =~= want.take(i as int).push(j@));
    }
    assert(want.take(outcomes@.len() as int) =~= want);
    let n: usize = filled(outcomes);
    three(
        "fields",
        array(items),
        "filled",
        count_json(n as u64),
        "total",
        count_json(outcomes.len() as u64),
    )
}

/// What selecting an option returns.
pub fn browser_select_option(selector: &str, value: &str) -> (res: Json)
    ensures
        res@ == JsonView::Object(
            seq![("selected_value"@, text_view(value@)), ("selector"@, text_view(selector@))],
        ),
{
    two("selected_value", text_json(value), "selector", text_json(selector))
}

/// What hovering returns.
pub fn browser_hover(selector: &str) -> (res: Json)
    ensures
        res@ == JsonView::Object(seq![("hovered"@, text_view(selector@))]),
{
    one("hovered", text_json(selector))
}

/// What arming the dialog handler returns.
pub fn browser_handle_dialog(accept: bool) -> (res: Json)
    ensures
        res@ == JsonView::Object(
            seq![("accept"@, JsonView::Bool(accept)), ("armed"@, JsonView::Bool(true))],
        ),
{
    two("accept", Json::Bool(accept), "armed", Json::Bool(true))
}

/// What restoring a state returns.
pub fn browser_restore_state() -> (res: Json)
    ensures
        res@ == JsonView::Object(seq![("restored"@, JsonView::Bool(true))]),
{
    one("restored", Json::Bool(true))
}

/// What an assertion returns.
pub fn browser_assert(o: &AssertOutcome) -> (res: Json)
    ensures
        res@ == JsonView::Object(
            seq![
                ("checked"@, text_view(o.checked@)),
                ("elapsed_ms"@, count_view(o.elapsed_ms as int)),
                ("found"@, JsonView::Bool(o.found)),
                ("passed"@, JsonView::Bool(o.passed)),
            ],
        ),
{
    let mut b = ObjectBuilder::new();
    b.put("checked", text_json(o.checked.as_str()));
    b.put("elapsed_ms", count_json(o.elapsed_ms));
    b.put("found", Json::Bool(o.found));
    b.put("passed", Json::Bool(o.passed));
    assert(member_views(b.members@) =~= seq![
        ("checked"@, text_view(o.checked@)),
        ("elapsed_ms"@, count_view(o.elapsed_ms as int)),
        ("found"@, JsonView::Bool(o.found)),
        ("passed"@, JsonView::Bool(o.passed)),
    ]);
    b.done()
}

/// Assertions are on presence unless they say otherwise.
pub fn default_true() -> (res: bool)
    ensures
        res,
{
    true
}

// -- laws ------------------------------------------------------------------------------
/// The parts of a payload: numbers, texts, texts that may be missing, and defaults.
pub proof fn law_payload_values(n: int, s: Seq<char>, o: Option<&str>, v: Seq<Seq<char>>, i: int)
    ensures
        count_view(n) == JsonView::Num(NumberView::PosInt(n)),
        text_view(s) == JsonView::Str(s),
        opt_view_text(Some(s)) == JsonView::Str(s),
        opt_view_text(None) == JsonView::Null,
        o matches Some(t) ==> text_or(o, s) == t@,
        o is None ==> text_or(o, s) == s,
        text_views(v).len() == v.len(),
        0 <= i < v.len() ==> text_views(v)[i] == JsonView::Str(v[i]),
{
}

/// The payloads of captured entries and form fields hold what was captured, each under its own
/// name. A status is a number once there is one, and `null` before.
pub proof fn law_payload_entries(m: ConsoleMessage, r: NetworkRequest, o: FieldOutcome, n: i64)
    ensures
        message_json_view(m) == JsonView::Object(
            seq![("level"@, JsonView::Str(m.level@)), ("text"@, JsonView::Str(m.text@))],
        ),
        request_json_view(r) == JsonView::Object(
            seq![
                ("method"@, JsonView::Str(r.method@)),
                ("resource_type"@, opt_view_text(opt_text(r.resource_type))),
                ("status"@, status_view(r.status)),
                ("url"@, JsonView::Str(r.url@)),
            ],
        ),
        outcome_json_view(o) == JsonView::Object(
            seq![
                ("error"@, opt_view_text(opt_text(o.error))),
                ("ok"@, JsonView::Bool(o.ok)),
                ("selector"@, JsonView::Str(o.selector@)),
            ],
        ),
        n >= 0 ==> status_view(Some(n)) == JsonView::Num(NumberView::PosInt(n as int)),
        n < 0 ==> status_view(Some(n)) == JsonView::Num(NumberView::NegInt(n as int)),
        status_view(None) == JsonView::Null,
{
}

} // verus!
