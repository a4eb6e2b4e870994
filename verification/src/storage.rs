//! Storage state: cookies and localStorage, saved as one JSON document and restored from
//! it.
use crate::json::{
    copy_values, json_text, key_before, law_member_is_first_of_its_name,
    law_reading_back_keeps_members, lemma_reread, member_index, member_views, parsed_json, reread, reread_each, rereadable, views, Json, JsonView, Number,
    NumberView, MAX_NESTING,
};
use crate::text::{is_empty, opt_str, opt_text, same};
use crate::tools::ObjectBuilder;
use vstd::prelude::*;

verus! {

/// Evaluates to the entries of the current origin's localStorage.
pub const DUMP_LOCALSTORAGE_JS: &'static str = r#"(() => {
    const o = {};
    try {
        for (let i = 0; i < localStorage.length; i++) {
            const k = localStorage.key(i);
            o[k] = localStorage.getItem(k);
        }
    } catch (e) {}
    return o;
})()"#;

/// The part of the localStorage script before the entries.
pub const APPLY_HEAD: &'static str = r#"(() => {
            const e = "#;

/// The part of the localStorage script behind the entries.
pub const APPLY_TAIL: &'static str = r#";
            try { for (const k in e) localStorage.setItem(k, e[k]); return true; }
            catch (err) { return false; }
        })()"#;

// -- cookies ------------------------------------------------------------------------------
/// A cookie as `Network.setCookies` takes it.
pub struct CookieParam {
    pub name: String,
    pub value: String,
    pub domain: Option<String>,
    pub path: Option<String>,
    pub secure: Option<bool>,
    pub http_only: Option<bool>,
    pub same_site: Option<String>,
    /// Seconds since the epoch; absent on session cookies.
    pub expires: Option<Number>,
}

/// The model of a cookie parameter.
pub struct CookieView {
    pub name: Seq<char>,
    pub value: Seq<char>,
    pub domain: Option<Seq<char>>,
    pub path: Option<Seq<char>>,
    pub secure: Option<bool>,
    pub http_only: Option<bool>,
    pub same_site: Option<Seq<char>>,
    pub expires: Option<NumberView>,
}

impl CookieParam {
    pub open spec fn view(self) -> CookieView {
        CookieView {
            name: self.name@,
            value: self.value@,
            domain: opt_text(self.domain),
            path: opt_text(self.path),
            secure: self.secure,
            http_only: self.http_only,
            same_site: opt_text(self.same_site),
            expires: match self.expires {
                Some(n) => Some(n@),
                None => None,
            },
        }
    }
}

/// Whether a number is above zero. A float is, when its sign bit is clear and some other
/// bit is set; JSON has no infinities and no NaN.
pub open spec fn positive(n: NumberView) -> bool {
    match n {
        NumberView::PosInt(i) => i > 0,
        NumberView::NegInt(_) => false,
        NumberView::Float(bits, _) => 0 < bits < 0x8000_0000_0000_0000,
    }
}

fn is_positive(n: &Number) -> (res: bool)
    ensures
        res == positive(n@),
{
    match n {
        Number::PosInt(i) => *i > 0,
        Number::NegInt(_) => false,
        Number::Float { bits, .. } => 0 < *bits && *bits < 0x8000_0000_0000_0000,
    }
}

/// The expiry that is set: only on cookies that are no session cookies and whose expiry
/// is a number above zero.
pub open spec fn cookie_expiry(c: JsonView) -> Option<NumberView> {
    if c.bool_at("session"@) == Some(true) {
        None
    } else {
        match c.get("expires"@) {
            Some(JsonView::Num(n)) => if positive(n) {
                Some(n)
            } else {
                None
            },
            _ => None,
        }
    }
}

/// The parameter of a saved cookie: the fields that the setter accepts. A cookie without a
/// name is left out.
pub open spec fn cookie_param(c: JsonView) -> Option<CookieView> {
    match c.str_at("name"@) {
        None => None,
        Some(name) => Some(
            CookieView {
                name,
                value: match c.str_at("value"@) {
                    Some(v) => v,
                    None => Seq::empty(),
                },
                domain: c.str_at("domain"@),
                path: c.str_at("path"@),
                secure: c.bool_at("secure"@),
                http_only: c.bool_at("httpOnly"@),
                same_site: c.str_at("sameSite"@),
                expires: cookie_expiry(c),
            },
        ),
    }
}

/// The parameters of a list of saved cookies, in order.
pub open spec fn cookie_params(cookies: Seq<JsonView>) -> Seq<CookieView>
    decreases cookies.len(),
{
    if cookies.len() == 0 {
        Seq::empty()
    } else {
        let before = cookie_params(cookies.drop_last());
        match cookie_param(cookies.last()) {
            Some(p) => before.push(p),
            None => before,
        }
    }
}

/// The models of a list of cookie parameters.
pub open spec fn cookie_views(ps: Seq<CookieParam>) -> Seq<CookieView> {
    ps.map_values(|p: CookieParam| p@)
}

fn own(o: Option<&str>) -> (res: Option<String>)
    ensures
        opt_text(res) == opt_str(o),
{
    match o {
        Some(s) => Some(s.to_owned()),
        None => None,
    }
}

fn one_cookie(c: &Json) -> (res: Option<CookieParam>)
    ensures
        match res {
            Some(p) => cookie_param(c@) == Some(p@),
            None => cookie_param(c@) is None,
        },
{
    let name = match c.str_at("name") {
        Some(n) => n.to_owned(),
        None => {
            return None;
        },
    };
    let session = match c.bool_at("session") {
        Some(b) => b,
        None => false,
    };
    let expires = if session {
        None
    } else {
        match c.get("expires") {
            Some(Json::Num(n)) => if is_positive(n) {
                Some(n.copy())
            } else {
                None
            },
            _ => None,
        }
    };
    Some(
        CookieParam {
            name,
            value: match c.str_at("value") {
                Some(v) => v.to_owned(),
                None => String::new(),
            },
            domain: own(c.str_at("domain")),
            path: own(c.str_at("path")),
            secure: c.bool_at("secure"),
            http_only: c.bool_at("httpOnly"),
            same_site: own(c.str_at("sameSite")),
            expires,
        },
    )
}

/// The parameters with which saved cookies are set again; `None` when there are no cookies
/// and so nothing to send.
pub fn set_cookies(cookies: &Vec<Json>) -> (res: Option<Vec<CookieParam>>)
    ensures
        match res {
            Some(ps) => cookies@.len() > 0 && cookie_views(ps@) == cookie_params(views(cookies@)),
            None => cookies@.len() == 0,
        },
{
    if cookies.len() == 0 {
        return None;
    }
    let mut out: Vec<CookieParam> = Vec::new();
    for i in 0..cookies.len()
        invariant
            cookie_views(out@) == cookie_params(views(cookies@).take(i as int)),
    {
        assert(views(cookies@).take(i + 1).drop_last() =~= views(cookies@).take(i as int));
        assert(views(cookies@).take(i + 1).last() == cookies@[i as int]@);
        match one_cookie(&cookies[i]) {
            Some(p) => {
                let ghost before = out@;
                out.push(p);
                assert(cookie_views(out@) =~= cookie_views(before).push(p@));
            },
            None => {},
        }
    }
    assert(views(cookies@).take(cookies@.len() as int) =~= views(cookies@));
    Some(out)
}

/// A member that is there only when it has a value.
pub open spec fn optional_member(key: Seq<char>, value: Option<JsonView>) -> Seq<
    (Seq<char>, JsonView),
> {
    match value {
        Some(v) => seq![(key, v)],
        None => Seq::empty(),
    }
}

/// An optional text as a JSON string.
pub open spec fn opt_string(o: Option<Seq<char>>) -> Option<JsonView> {
    match o {
        Some(s) => Some(JsonView::Str(s)),
        None => None,
    }
}

/// An optional switch as a JSON boolean.
pub open spec fn opt_bool(o: Option<bool>) -> Option<JsonView> {
    match o {
        Some(b) => Some(JsonView::Bool(b)),
        None => None,
    }
}

/// A cookie parameter as the setter takes it: the fields that it has.
pub open spec fn cookie_json(c: CookieView) -> JsonView {
    JsonView::Object(
        optional_member("domain"@, opt_string(c.domain)) + optional_member(
            "expires"@,
            match c.expires {
                Some(n) => Some(JsonView::Num(n)),
                None => None,
            },
        ) + optional_member("httpOnly"@, opt_bool(c.http_only)) + seq![
            ("name"@, JsonView::Str(c.name)),
        ] + optional_member("path"@, opt_string(c.path)) + optional_member(
            "sameSite"@,
            opt_string(c.same_site),
        ) + optional_member("secure"@, opt_bool(c.secure)) + seq![
            ("value"@, JsonView::Str(c.value)),
        ],
    )
}

fn put_text(o: &mut ObjectBuilder, key: &str, value: &Option<String>)
    ensures
        member_views(final(o).members@) == member_views(old(o).members@) + optional_member(
            key@,
            opt_string(opt_text(*value)),
        ),
{
    match value {
        Some(v) => {
            o.put(key, Json::Str(v.clone()));
        },
        None => {},
    }
    assert(member_views(o.members@) =~= member_views(old(o).members@) + optional_member(
        key@,
        opt_string(opt_text(*value)),
    ));
}

fn put_bool(o: &mut ObjectBuilder, key: &str, value: Option<bool>)
    ensures
        member_views(final(o).members@) == member_views(old(o).members@) + optional_member(
            key@,
            opt_bool(value),
        ),
{
    match value {
        Some(b) => {
            o.put(key, Json::Bool(b));
        },
        None => {},
    }
    assert(member_views(o.members@) =~= member_views(old(o).members@) + optional_member(
        key@,
        opt_bool(value),
    ));
}

impl CookieParam {
    /// The parameter as the setter takes it.
    pub fn to_json(&self) -> (res: Json)
        ensures
            res@ == cookie_json(self@),
    {
        let mut o = ObjectBuilder::new();
        put_text(&mut o, "domain", &self.domain);
        let ghost before = member_views(o.members@);
        match &self.expires {
            Some(n) => {
                o.put("expires", Json::Num(n.copy()));
            },
            None => {},
        }
        assert(member_views(o.members@) =~= before + optional_member(
            "expires"@,
            match self@.expires {
                Some(n) => Some(JsonView::Num(n)),
                None => None,
            },
        ));
        put_bool(&mut o, "httpOnly", self.http_only);
        o.put("name", Json::Str(self.name.clone()));
        put_text(&mut o, "path", &self.path);
        put_text(&mut o, "sameSite", &self.same_site);
        put_bool(&mut o, "secure", self.secure);
        o.put("value", Json::Str(self.value.clone()));
        assert(member_views(o.members@) =~= cookie_json(self@)->Object_0);
        o.done()
    }
}

/// The cookies in the answer of `Network.getAllCookies`.
pub fn get_all_cookies(resp: &Json) -> (res: Vec<Json>)
    ensures
        views(res@) == match resp@.array_at("cookies"@) {
            Some(cs) => cs,
            None => Seq::empty(),
        },
{
    match resp.array_at("cookies") {
        Some(cs) => copy_values(cs),
        None => {
            let out: Vec<Json> = Vec::new();
            assert(views(out@) =~= Seq::<JsonView>::empty());
            out
        },
    }
}

// -- localStorage ------------------------------------------------------------------------------
/// The model of a list of localStorage entries.
pub open spec fn entry_views(es: Seq<(String, String)>) -> Seq<(Seq<char>, Seq<char>)> {
    es.map_values(|e: (String, String)| (e.0@, e.1@))
}

/// Entries as the members of a JSON object.
pub open spec fn entry_members(es: Seq<(Seq<char>, Seq<char>)>) -> Seq<(Seq<char>, JsonView)> {
    es.map_values(|e: (Seq<char>, Seq<char>)| (e.0, JsonView::Str(e.1)))
}

fn entries_json(entries: &Vec<(String, String)>) -> (res: Json)
    ensures
        res@ == JsonView::Object(entry_members(entry_views(entries@))),
{
    let ghost all = entry_members(entry_views(entries@));
    let mut out: Vec<(String, Json)> = Vec::new();
    for i in 0..entries.len()
        invariant
            all == entry_members(entry_views(entries@)),
            member_views(out@) == all.take(i as int),
    {
        let ghost before = out@;
        let m = (entries[i].0.clone(), Json::Str(entries[i].1.clone()));
        out.push(m);
        assert(member_views(out@) =~= member_views(before).push((m.0@, m.1@)));
        assert(all.take(i + 1) =~= all.take(i as int).push((m.0@, m.1@)));
    }
    assert(all.take(entries@.len() as int) =~= all);
    let res = Json::Object(out);
    proof {
        crate::json::lemma_array_view(res);
    }
    res
}

/// The script that writes entries into the current origin's localStorage.
pub fn apply_localstorage(entries: &Vec<(String, String)>) -> (res: String)
    ensures
        res@ == APPLY_HEAD@ + json_text(JsonView::Object(entry_members(entry_views(entries@))))
            + APPLY_TAIL@,
{
    let j = entries_json(entries);
    let t = j.to_text();
    let mut out = APPLY_HEAD.to_owned();
    out.append(t.as_str());
    out.append(APPLY_TAIL);
    out
}

/// The page's origin, where it has a usable one: an opaque origin is no origin.
pub fn page_origin(location_origin: Option<String>) -> (res: Option<String>)
    ensures
        opt_text(res) == match location_origin {
            Some(o) => if o@ != "null"@ && o@.len() > 0 {
                Some(o@)
            } else {
                None
            },
            None => None,
        },
{
    match location_origin {
        Some(o) => if !same(o.as_str(), "null") && !is_empty(o.as_str()) {
            Some(o)
        } else {
            None
        },
        None => None,
    }
}

// -- saving ------------------------------------------------------------------------------
/// The document of a storage state.
pub open spec fn state_document(
    url: Seq<char>,
    origin: Seq<char>,
    cookies: Seq<JsonView>,
    entries: Seq<(Seq<char>, Seq<char>)>,
) -> JsonView {
    JsonView::Object(
        seq![
            ("cookies"@, JsonView::Array(cookies)),
            ("localStorage"@, JsonView::Object(entry_members(entries))),
            ("origin"@, JsonView::Str(origin)),
            ("url"@, JsonView::Str(url)),
        ],
    )
}

/// Whether a state is read back from its text: its cookies are read back from theirs, and its
/// entries are in the order of their keys, as the browser's answers hold them, the first of them
/// not one that the parser keeps for itself.
pub open spec fn savable(cookies: Seq<JsonView>, entries: Seq<(Seq<char>, Seq<char>)>) -> bool {
    &&& forall|i: int|
        0 <= i < cookies.len() ==> rereadable(#[trigger] cookies[i], MAX_NESTING - 2)
    &&& forall|i: int, j: int|
        0 <= i < j < entries.len() ==> key_before(
            (#[trigger] entries[i]).0,
            (#[trigger] entries[j]).0,
        )
    &&& entries.len() > 0 ==> entries[0].0 != "$serde_json::private::RawValue"@
}

/// The storage state of a session as compact JSON text: cookies, the current origin's
/// localStorage, and the current URL.
pub fn save_state(
    url: &str,
    origin: &str,
    cookies: Vec<Json>,
    local_storage: &Vec<(String, String)>,
) -> (res: String)
    ensures
        res@ == json_text(
            state_document(url@, origin@, views(cookies@), entry_views(local_storage@)),
        ),
{
    let ghost cs = views(cookies@);
    let cookies = Json::Array(cookies);
    proof {
        crate::json::lemma_array_view(cookies);
    }
    let entries = entries_json(local_storage);
    let mut members: Vec<(String, Json)> = Vec::new();
    members.push(("cookies".to_owned(), cookies));
    members.push(("localStorage".to_owned(), entries));
    members.push(("origin".to_owned(), Json::Str(origin.to_owned())));
    members.push(("url".to_owned(), Json::Str(url.to_owned())));
    let ghost want = seq![
        ("cookies"@, JsonView::Array(cs)),
        ("localStorage"@, JsonView::Object(entry_members(entry_views(local_storage@)))),
        ("origin"@, JsonView::Str(origin@)),
        ("url"@, JsonView::Str(url@)),
    ];
    assert(member_views(members@) =~= want);
    let doc = Json::Object(members);
    proof {
        crate::json::lemma_array_view(doc);
    }
    doc.to_text()
}

// -- restoring ------------------------------------------------------------------------------
/// What a storage state asks to restore.
pub struct RestorePlan {
    /// The cookies to set, when the document lists any.
    pub cookies: Option<Vec<CookieParam>>,
    pub origin: String,
    pub entries: Vec<(String, String)>,
}

/// Whether every member is a string.
pub open spec fn all_strings(ms: Seq<(Seq<char>, JsonView)>) -> bool {
    forall|i: int| 0 <= i < ms.len() ==> (#[trigger] ms[i]).1 is Str
}

/// The entries of a document: its `localStorage` object where every member is a string,
/// else none.
pub open spec fn document_entries(doc: JsonView) -> Seq<(Seq<char>, Seq<char>)> {
    match doc.get("localStorage"@) {
        Some(JsonView::Object(ms)) => if all_strings(ms) {
            ms.map_values(|m: (Seq<char>, JsonView)| (m.0, m.1->Str_0))
        } else {
            Seq::empty()
        },
        _ => Seq::empty(),
    }
}

/// The origin of a document, or the empty text.
pub open spec fn document_origin(doc: JsonView) -> Seq<char> {
    match doc.str_at("origin"@) {
        Some(o) => o,
        None => Seq::empty(),
    }
}

/// The cookies of a document.
pub open spec fn document_cookies(doc: JsonView) -> Seq<JsonView> {
    match doc.array_at("cookies"@) {
        Some(cs) => cs,
        None => Seq::empty(),
    }
}

fn read_entries(doc: &Json) -> (res: Vec<(String, String)>)
    ensures
        entry_views(res@) == document_entries(doc@),
{
    let mut out: Vec<(String, String)> = Vec::new();
    assert(entry_views(out@) =~= Seq::<(Seq<char>, Seq<char>)>::empty());
    match doc.get("localStorage") {
        Some(j) => {
            proof {
                crate::json::lemma_array_view(*j);
            }
            match j {
                Json::Object(ms) => {
                    let ghost want = member_views(ms@).map_values(
                        |m: (Seq<char>, JsonView)| (m.0, m.1->Str_0),
                    );
                    for i in 0..ms.len()
                        invariant
                            doc@.get("localStorage"@) == Some(
                                JsonView::Object(member_views(ms@)),
                            ),
                            want == member_views(ms@).map_values(
                                |m: (Seq<char>, JsonView)| (m.0, m.1->Str_0),
                            ),
                            forall|k: int| 0 <= k < i ==> (#[trigger] member_views(ms@)[k]).1 is Str,
                            entry_views(out@) == want.take(i as int),
                    {
                        match &ms[i].1 {
                            Json::Str(s) => {
                                let ghost before = out@;
                                let e = (ms[i].0.clone(), s.clone());
                                out.push(e);
                                assert(entry_views(out@) =~= entry_views(before).push(
                                    (e.0@, e.1@),
                                ));
                                assert(member_views(ms@)[i as int].1 is Str);
                                assert(want.take(i + 1) =~= want.take(i as int).push(
                                    (e.0@, e.1@),
                                ));
                            },
                            _ => {
                                assert(!(member_views(ms@)[i as int].1 is Str));
                                let none: Vec<(String, String)> = Vec::new();
                                assert(entry_views(none@) =~= Seq::<
                                    (Seq<char>, Seq<char>),
                                >::empty());
                                return none;
                            },
                        }
                    }
                    assert(want.take(ms@.len() as int) =~= want);
                    assert(all_strings(member_views(ms@)));
                    out
                },
                _ => out,
            }
        },
        None => out,
    }
}

/// Whether a plan restores the given cookies, and the given entries to the given origin.
pub open spec fn restores(
    plan: RestorePlan,
    origin: Seq<char>,
    cookies: Seq<JsonView>,
    entries: Seq<(Seq<char>, Seq<char>)>,
) -> bool {
    &&& match plan.cookies {
        Some(ps) => cookies.len() > 0 && cookie_views(ps@) == cookie_params(cookies),
        None => cookies.len() == 0,
    }
    &&& plan.origin@ == origin
    &&& entry_views(plan.entries@) == entries
}

/// Whether a plan restores what a document holds.
pub open spec fn restores_document(plan: RestorePlan, doc: JsonView) -> bool {
    restores(plan, document_origin(doc), document_cookies(doc), document_entries(doc))
}

/// Reads the document of a storage state: its cookies, which are set at once, and its
/// localStorage entries with the origin they belong to.
pub fn read_document(doc: &Json) -> (res: RestorePlan)
    ensures
        restores_document(res, doc@),
        res.origin@ == document_origin(doc@),
        entry_views(res.entries@) == document_entries(doc@),
        document_cookies(doc@).len() == 0 ==> res.cookies is None,
        document_cookies(doc@).len() > 0 ==> res.cookies is Some && cookie_views(
            res.cookies.unwrap()@,
        ) == cookie_params(document_cookies(doc@)),
{
    let cookies = match doc.array_at("cookies") {
        Some(cs) => set_cookies(cs),
        None => None,
    };
    let origin = match doc.str_at("origin") {
        Some(o) => o.to_owned(),
        None => String::new(),
    };
    let entries = read_entries(doc);
    RestorePlan { cookies, origin, entries }
}

/// Reads a storage state. What [`save_state`] wrote is read back: the same origin and entries, and
/// the same cookies, but for the last place of a fractional expiry.
pub fn restore_state(state: &str) -> (res: Result<RestorePlan, String>)
    ensures
        match parsed_json(state@) {
            Ok(doc) => res is Ok && restores_document(res->Ok_0, doc),
            Err(e) => res is Err && res->Err_0@ == "state is not valid JSON: "@ + e,
        },
        parsed_json(state@) matches Ok(doc) ==> {
            &&& res is Ok
            &&& res->Ok_0.origin@ == document_origin(doc)
            &&& entry_views(res->Ok_0.entries@) == document_entries(doc)
            &&& document_cookies(doc).len() == 0 ==> res->Ok_0.cookies is None
            &&& document_cookies(doc).len() > 0 ==> res->Ok_0.cookies is Some && cookie_views(
                res->Ok_0.cookies.unwrap()@,
            ) == cookie_params(document_cookies(doc))
        },
        forall|
            url: Seq<char>,
            origin: Seq<char>,
            cookies: Seq<JsonView>,
            entries: Seq<(Seq<char>, Seq<char>)>,
        |
            #![trigger state_document(url, origin, cookies, entries)]
            savable(cookies, entries) && state@ == json_text(
                state_document(url, origin, cookies, entries),
            ) ==> (res is Ok && restores(res->Ok_0, origin, reread_each(cookies), entries)),
{
    let parsed = Json::parse(state);
    proof {
        assert forall|
            url: Seq<char>,
            origin: Seq<char>,
            cookies: Seq<JsonView>,
            entries: Seq<(Seq<char>, Seq<char>)>,
        |
            #![trigger state_document(url, origin, cookies, entries)]
            savable(cookies, entries) && state@ == json_text(
                state_document(url, origin, cookies, entries),
            ) implies parsed is Ok && document_cookies(parsed->Ok_0@) == reread_each(cookies)
            && document_origin(parsed->Ok_0@) == origin && document_entries(parsed->Ok_0@)
            == entries by {
            law_saved_state_can_be_read_back(url, origin, cookies, entries);
            law_restore_reads_what_was_saved(url, origin, cookies, entries);
        }
    }
    match parsed {
        Ok(doc) => Ok(read_document(&doc)),
        Err(e) => {
            let mut message = "state is not valid JSON: ".to_owned();
            message.append(e.as_str());
            Err(message)
        },
    }
}

/// What becomes of restored localStorage entries.
#[derive(Clone, Copy, Debug, PartialEq, Eq, Structural)]
pub enum StorageStep {
    /// There is nothing to write.
    Nothing,
    /// The page is on the origin: write the entries now.
    ApplyNow,
    /// Keep them until a navigation reaches the origin.
    Defer,
}

impl RestorePlan {
    /// What becomes of the entries: nothing where there are none or they have no origin, else
    /// they are written now where the page is on their origin, and later where it is not.
    pub open spec fn next_step(self, page_origin: Option<Seq<char>>) -> StorageStep {
        if self.entries@.len() == 0 || self.origin@.len() == 0 {
            StorageStep::Nothing
        } else if page_origin == Some(self.origin@) {
            StorageStep::ApplyNow
        } else {
            StorageStep::Defer
        }
    }

    /// Decides what becomes of the entries, given the page's current origin.
    pub fn storage_step(&self, page_origin: Option<&str>) -> (res: StorageStep)
        ensures
            res == self.next_step(opt_str(page_origin)),
            res is Nothing <==> self.entries@.len() == 0 || self.origin@.len() == 0,
            res is ApplyNow <==> self.entries@.len() > 0 && self.origin@.len() > 0 && opt_str(
                page_origin,
            ) == Some(self.origin@),
    {
        if self.entries.len() == 0 || is_empty(self.origin.as_str()) {
            return StorageStep::Nothing;
        }
        match page_origin {
            Some(o) => if same(o, self.origin.as_str()) {
                StorageStep::ApplyNow
            } else {
                StorageStep::Defer
            },
            None => StorageStep::Defer,
        }
    }
}

// -- laws ------------------------------------------------------------------------------
/// What was saved is what a restore reads back: the same origin and entries, and each cookie as
/// its own text is read back.
pub proof fn law_restore_reads_what_was_saved(
    url: Seq<char>,
    origin: Seq<char>,
    cookies: Seq<JsonView>,
    entries: Seq<(Seq<char>, Seq<char>)>,
)
    ensures
        ({
            let doc = reread(state_document(url, origin, cookies, entries));
            &&& document_cookies(doc) == reread_each(cookies)
            &&& document_origin(doc) == origin
            &&& document_entries(doc) == entries
        }),
{
    reveal_strlit("cookies");
    reveal_strlit("localStorage");
    reveal_strlit("origin");
    reveal_strlit("url");
    let saved = state_document(url, origin, cookies, entries);
    let ms = saved->Object_0;
    assert("cookies"@.len() == 7 && "localStorage"@.len() == 12 && "origin"@.len() == 6);
    crate::json::lemma_member_index(ms, "cookies"@, 0);
    crate::json::lemma_member_index(ms, "localStorage"@, 1);
    crate::json::lemma_member_index(ms, "origin"@, 2);
    law_reading_back_keeps_members(saved, "cookies"@);
    law_reading_back_keeps_members(saved, "localStorage"@);
    law_reading_back_keeps_members(saved, "origin"@);
    lemma_reread(JsonView::Array(cookies));
    let members = entry_members(entries);
    lemma_reread(JsonView::Object(members));
    assert(reread(JsonView::Object(members))->Object_0 =~= members);
    let back = members.map_values(|m: (Seq<char>, JsonView)| (m.0, m.1->Str_0));
    assert(back =~= entries);
    assert(all_strings(members));
}

/// The state of a session can be read back whenever its parts can.
pub proof fn law_saved_state_can_be_read_back(
    url: Seq<char>,
    origin: Seq<char>,
    cookies: Seq<JsonView>,
    entries: Seq<(Seq<char>, Seq<char>)>,
)
    requires
        savable(cookies, entries),
    ensures
        rereadable(state_document(url, origin, cookies, entries), MAX_NESTING as int),
{
    reveal_strlit("cookies");
    reveal_strlit("localStorage");
    reveal_strlit("origin");
    reveal_strlit("url");
    reveal_strlit("$serde_json::private::RawValue");
    let members = entry_members(entries);
    assert forall|i: int, j: int| 0 <= i < j < members.len() implies key_before(
        (#[trigger] members[i]).0,
        (#[trigger] members[j]).0,
    ) by {
        assert(members[i].0 == entries[i].0 && members[j].0 == entries[j].0);
    }
    assert(members.len() > 0 ==> members[0].0 == entries[0].0);
    assert forall|i: int| 0 <= i < members.len() implies rereadable(
        (#[trigger] members[i]).1,
        MAX_NESTING - 2,
    ) by {
        assert(members[i].1 == JsonView::Str(entries[i].1));
    }
    let storage = JsonView::Object(members);
    assert(rereadable(storage, MAX_NESTING - 1));
    assert(rereadable(JsonView::Array(cookies), MAX_NESTING - 1));
    let doc = state_document(url, origin, cookies, entries);
    let ms = doc->Object_0;
    assert(ms[0].0[0] == 'c' && ms[1].0[0] == 'l' && ms[2].0[0] == 'o' && ms[3].0[0] == 'u');
    assert("$serde_json::private::RawValue"@[0] == '$');
    assert forall|i: int, j: int| 0 <= i < j < ms.len() implies key_before(
        (#[trigger] ms[i]).0,
        (#[trigger] ms[j]).0,
    ) by {
        assert(ms[i].0[0] < ms[j].0[0]);
    }
    assert forall|i: int| 0 <= i < ms.len() implies rereadable(
        (#[trigger] ms[i]).1,
        MAX_NESTING - 1,
    ) by {}
}

/// Whether a parameter sets a saved cookie again: its name, value, scope and flags are those of
/// the cookie, and its expiry is the cookie's as that is read back.
pub open spec fn sets_again(p: CookieView, c: JsonView) -> bool {
    &&& c.str_at("name"@) == Some(p.name)
    &&& p.value == match c.str_at("value"@) {
        Some(v) => v,
        None => Seq::empty(),
    }
    &&& p.domain == c.str_at("domain"@)
    &&& p.path == c.str_at("path"@)
    &&& p.secure == c.bool_at("secure"@)
    &&& p.http_only == c.bool_at("httpOnly"@)
    &&& p.same_site == c.str_at("sameSite"@)
    &&& p.expires == cookie_expiry(reread(c))
}

/// A cookie keeps its name, value, scope and flags through a save and a restore, whatever else
/// it carries.
pub proof fn law_restored_cookie_keeps_identity(c: JsonView)
    requires
        c.str_at("name"@) is Some,
    ensures
        cookie_param(reread(c)) matches Some(p) && sets_again(p, c),
{
    law_reading_back_keeps_members(c, "name"@);
    law_reading_back_keeps_members(c, "value"@);
    law_reading_back_keeps_members(c, "domain"@);
    law_reading_back_keeps_members(c, "path"@);
    law_reading_back_keeps_members(c, "secure"@);
    law_reading_back_keeps_members(c, "httpOnly"@);
    law_reading_back_keeps_members(c, "sameSite"@);
}

/// Every saved cookie that has a name is among those that a restore sets.
pub proof fn law_every_saved_cookie_is_set(cookies: Seq<JsonView>, i: int)
    requires
        0 <= i < cookies.len(),
        cookies[i].str_at("name"@) is Some,
    ensures
        exists|j: int|
            0 <= j < cookie_params(reread_each(cookies)).len() && sets_again(
                #[trigger] cookie_params(reread_each(cookies))[j],
                cookies[i],
            ),
    decreases cookies.len(),
{
    let all = cookie_params(reread_each(cookies));
    let front = cookies.drop_last();
    let before = cookie_params(reread_each(front));
    assert(reread_each(cookies).drop_last() =~= reread_each(front));
    assert(reread_each(cookies).last() == reread(cookies.last()));
    if i == cookies.len() - 1 {
        law_restored_cookie_keeps_identity(cookies[i]);
        assert(sets_again(all[all.len() - 1], cookies[i]));
    } else {
        assert(front[i] == cookies[i]);
        law_every_saved_cookie_is_set(front, i);
        let j = choose|j: int| 0 <= j < before.len() && sets_again(#[trigger] before[j], front[i]);
        assert(all[j] == before[j]);
    }
}

/// Cookies are set one by one, in order. A cookie without a name is left out; every other keeps
/// its name, value, scope and flags, each under its own, and its expiry where it is no session
/// cookie and that is a number above zero.
pub proof fn law_cookies_are_set_in_order(a: Seq<JsonView>, b: Seq<JsonView>, c: JsonView)
    ensures
        cookie_params(a + b) == cookie_params(a) + cookie_params(b),
        c.str_at("name"@) is None ==> cookie_params(seq![c]) == Seq::<CookieView>::empty(),
        c.str_at("name"@) matches Some(name) ==> cookie_params(seq![c]).len() == 1 && ({
            let p = cookie_params(seq![c])[0];
            &&& p.name == name
            &&& c.str_at("value"@) matches Some(v) ==> p.value == v
            &&& c.str_at("value"@) is None ==> p.value == Seq::<char>::empty()
            &&& p.domain == c.str_at("domain"@)
            &&& p.path == c.str_at("path"@)
            &&& p.secure == c.bool_at("secure"@)
            &&& p.http_only == c.bool_at("httpOnly"@)
            &&& p.same_site == c.str_at("sameSite"@)
            &&& p.expires == cookie_expiry(c)
        }),
    decreases b.len(),
{
    let one = seq![c];
    assert(one.drop_last() =~= Seq::<JsonView>::empty());
    assert(cookie_params(one.drop_last()) =~= Seq::<CookieView>::empty());
    assert(one.last() == c);
    if b.len() == 0 {
        assert(a + b =~= a);
        assert(cookie_params(a) + cookie_params(b) =~= cookie_params(a));
    } else {
        assert((a + b).drop_last() =~= a + b.drop_last());
        assert((a + b).last() == b.last());
        law_cookies_are_set_in_order(a, b.drop_last(), c);
        assert(cookie_params(a + b) =~= cookie_params(a) + cookie_params(b));
    }
}

/// Which expiry is set: none on a session cookie, and none that is no number above zero.
pub proof fn law_expiries(c: JsonView, n: int, bits: u64, text: Seq<char>)
    ensures
        c.bool_at("session"@) == Some(true) ==> cookie_expiry(c) is None,
        cookie_expiry(c) matches Some(x) ==> c.get("expires"@) == Some(JsonView::Num(x)),
        c.bool_at("session"@) != Some(true) && c.get("expires"@) == Some(
            JsonView::Num(NumberView::PosInt(n)),
        ) ==> (cookie_expiry(c) is Some <==> n > 0),
        c.get("expires"@) == Some(JsonView::Num(NumberView::NegInt(n))) ==> cookie_expiry(c) is None,
        c.bool_at("session"@) != Some(true) && c.get("expires"@) == Some(
            JsonView::Num(NumberView::Float(bits, text)),
        ) ==> (cookie_expiry(c) is Some <==> 0 < bits < 0x8000_0000_0000_0000),
{
}

/// The model of a parameter is its fields, and that of a list is those of its parameters.
pub proof fn law_cookie_models(p: CookieParam, ps: Seq<CookieParam>, i: int)
    ensures
        p@.name == p.name@,
        p@.value == p.value@,
        p@.domain == opt_text(p.domain),
        p@.path == opt_text(p.path),
        p@.secure == p.secure,
        p@.http_only == p.http_only,
        p@.same_site == opt_text(p.same_site),
        p.expires matches Some(n) ==> p@.expires == Some(n@),
        p.expires is None ==> p@.expires is None,
        cookie_views(ps).len() == ps.len(),
        0 <= i < ps.len() ==> cookie_views(ps)[i] == ps[i]@,
{
}

/// What the setter is handed of a cookie is what the parameter holds, each under its own name;
/// what the parameter does not hold is not there.
pub proof fn law_setter_gets_the_fields(c: CookieView, other: Seq<char>)
    ensures
        other != "domain"@ && other != "expires"@ && other != "httpOnly"@ && other != "name"@
            && other != "path"@ && other != "sameSite"@ && other != "secure"@ && other != "value"@
            ==> cookie_json(c).get(other) is None,
        cookie_json(c).get("name"@) == Some(JsonView::Str(c.name)),
        cookie_json(c).get("value"@) == Some(JsonView::Str(c.value)),
        cookie_json(c).str_at("domain"@) == c.domain,
        cookie_json(c).str_at("path"@) == c.path,
        cookie_json(c).str_at("sameSite"@) == c.same_site,
        cookie_json(c).bool_at("secure"@) == c.secure,
        cookie_json(c).bool_at("httpOnly"@) == c.http_only,
        c.expires matches Some(n) ==> cookie_json(c).get("expires"@) == Some(JsonView::Num(n)),
        c.expires is None ==> cookie_json(c).get("expires"@) is None,
{
    reveal_strlit("domain");
    reveal_strlit("expires");
    reveal_strlit("httpOnly");
    reveal_strlit("name");
    reveal_strlit("path");
    reveal_strlit("sameSite");
    reveal_strlit("secure");
    reveal_strlit("value");
    assert("domain"@[0] == 'd');
    assert("expires"@[0] == 'e');
    assert("httpOnly"@[0] == 'h');
    assert("name"@[0] == 'n');
    assert("path"@[0] == 'p');
    assert("sameSite"@[0] == 's' && "sameSite"@[1] == 'a');
    assert("secure"@[0] == 's' && "secure"@[1] == 'e');
    assert("value"@[0] == 'v');
    lemma_cookie_member(c, "domain"@);
    lemma_cookie_member(c, "expires"@);
    lemma_cookie_member(c, "httpOnly"@);
    lemma_cookie_member(c, "name"@);
    lemma_cookie_member(c, "path"@);
    lemma_cookie_member(c, "sameSite"@);
    lemma_cookie_member(c, "secure"@);
    lemma_cookie_member(c, "value"@);
    lemma_cookie_member(c, other);
}

proof fn lemma_cookie_member(c: CookieView, key: Seq<char>)
    ensures
        cookie_json(c).get(key) == (if key == "domain"@ && c.domain is Some {
            Some(JsonView::Str(c.domain.unwrap()))
        } else if key == "expires"@ && c.expires is Some {
            Some(JsonView::Num(c.expires.unwrap()))
        } else if key == "httpOnly"@ && c.http_only is Some {
            Some(JsonView::Bool(c.http_only.unwrap()))
        } else if key == "name"@ {
            Some(JsonView::Str(c.name))
        } else if key == "path"@ && c.path is Some {
            Some(JsonView::Str(c.path.unwrap()))
        } else if key == "sameSite"@ && c.same_site is Some {
            Some(JsonView::Str(c.same_site.unwrap()))
        } else if key == "secure"@ && c.secure is Some {
            Some(JsonView::Bool(c.secure.unwrap()))
        } else if key == "value"@ {
            Some(JsonView::Str(c.value))
        } else {
            None
        }),
{
    let expiry = match c.expires {
        Some(n) => Some(JsonView::Num(n)),
        None => None,
    };
    let domain = optional_member("domain"@, opt_string(c.domain));
    let expires = optional_member("expires"@, expiry);
    let http_only = optional_member("httpOnly"@, opt_bool(c.http_only));
    let name = optional_member("name"@, Some(JsonView::Str(c.name)));
    let path = optional_member("path"@, opt_string(c.path));
    let same_site = optional_member("sameSite"@, opt_string(c.same_site));
    let secure = optional_member("secure"@, opt_bool(c.secure));
    let value = optional_member("value"@, Some(JsonView::Str(c.value)));
    lemma_optional_member("domain"@, opt_string(c.domain), key);
    lemma_get_of_concat(domain, "expires"@, expiry, key);
    lemma_get_of_concat(domain + expires, "httpOnly"@, opt_bool(c.http_only), key);
    lemma_get_of_concat(domain + expires + http_only, "name"@, Some(JsonView::Str(c.name)), key);
    lemma_get_of_concat(domain + expires + http_only + name, "path"@, opt_string(c.path), key);
    lemma_get_of_concat(
        domain + expires + http_only + name + path,
        "sameSite"@,
        opt_string(c.same_site),
        key,
    );
    lemma_get_of_concat(
        domain + expires + http_only + name + path + same_site,
        "secure"@,
        opt_bool(c.secure),
        key,
    );
    lemma_get_of_concat(
        domain + expires + http_only + name + path + same_site + secure,
        "value"@,
        Some(JsonView::Str(c.value)),
        key,
    );
}

proof fn lemma_optional_member(name: Seq<char>, v: Option<JsonView>, key: Seq<char>)
    ensures
        JsonView::Object(optional_member(name, v)).get(key) == (if name == key {
            v
        } else {
            None
        }),
{
    let m = optional_member(name, v);
    law_member_is_first_of_its_name(
        m,
        key,
        if name == key && v is Some {
            0int
        } else {
            m.len() as int
        },
    );
}

proof fn lemma_get_of_concat(
    a: Seq<(Seq<char>, JsonView)>,
    name: Seq<char>,
    v: Option<JsonView>,
    key: Seq<char>,
)
    ensures
        JsonView::Object(a + optional_member(name, v)).get(key) == (if JsonView::Object(a).get(
            key,
        ) is Some {
            JsonView::Object(a).get(key)
        } else if name == key {
            v
        } else {
            None
        }),
{
    let m = optional_member(name, v);
    let all = a + m;
    lemma_index_of_member(a, key);
    let i = member_index(a, key);
    if i < a.len() {
        assert(all[i] == a[i]);
        assert forall|k: int| 0 <= k < i implies (#[trigger] all[k]).0 != key by {
            assert(all[k] == a[k]);
        }
        law_member_is_first_of_its_name(all, key, i);
    } else {
        let at = if name == key && v is Some {
            a.len() as int
        } else {
            all.len() as int
        };
        assert forall|k: int| 0 <= k < at implies (#[trigger] all[k]).0 != key by {
            if k < a.len() {
                assert(all[k] == a[k]);
            }
        }
        law_member_is_first_of_its_name(all, key, at);
    }
}

proof fn lemma_index_of_member(v: Seq<(Seq<char>, JsonView)>, key: Seq<char>)
    ensures
        0 <= member_index(v, key) <= v.len(),
        member_index(v, key) < v.len() ==> v[member_index(v, key)].0 == key,
        forall|k: int| 0 <= k < member_index(v, key) ==> (#[trigger] v[k]).0 != key,
    decreases v.len(),
{
    if v.len() > 0 && v[0].0 != key {
        let rest = v.drop_first();
        lemma_index_of_member(rest, key);
        let i = member_index(v, key);
        if i < v.len() {
            assert(rest[i - 1] == v[i]);
        }
        assert forall|k: int| 0 <= k < i implies (#[trigger] v[k]).0 != key by {
            if k > 0 {
                assert(rest[k - 1] == v[k]);
            }
        }
    }
}

/// The entries of a document: every member of its `localStorage`, in order, where all of them
/// are texts; none where one is not, or where it has no such object.
pub proof fn law_entries_of_a_document(doc: JsonView, ms: Seq<(Seq<char>, JsonView)>, i: int)
    requires
        doc.get("localStorage"@) == Some(JsonView::Object(ms)),
    ensures
        (forall|k: int| 0 <= k < ms.len() ==> (#[trigger] ms[k]).1 is Str) ==> document_entries(
            doc,
        ).len() == ms.len(),
        (forall|k: int| 0 <= k < ms.len() ==> (#[trigger] ms[k]).1 is Str) && 0 <= i < ms.len()
            ==> document_entries(doc)[i].0 == ms[i].0 && ms[i].1 == JsonView::Str(
            document_entries(doc)[i].1,
        ),
        0 <= i < ms.len() && !(ms[i].1 is Str) ==> document_entries(doc).len() == 0,
{
}

/// The parts of a document are found under their own names; a part that is missing is empty.
pub proof fn law_parts_of_a_document(doc: JsonView)
    ensures
        doc.str_at("origin"@) matches Some(o) ==> document_origin(doc) == o,
        doc.str_at("origin"@) is None ==> document_origin(doc).len() == 0,
        doc.array_at("cookies"@) matches Some(cs) ==> document_cookies(doc) == cs,
        doc.array_at("cookies"@) is None ==> document_cookies(doc).len() == 0,
        !(doc.get("localStorage"@) matches Some(JsonView::Object(_))) ==> document_entries(
            doc,
        ).len() == 0,
{
}

/// A saved state holds every part under its own name, and nothing else: the cookies, the entries,
/// the origin and the address.
pub proof fn law_state_holds_its_parts(
    url: Seq<char>,
    origin: Seq<char>,
    cookies: Seq<JsonView>,
    entries: Seq<(Seq<char>, Seq<char>)>,
    i: int,
)
    ensures
        state_document(url, origin, cookies, entries).get("cookies"@) == Some(
            JsonView::Array(cookies),
        ),
        state_document(url, origin, cookies, entries).get("origin"@) == Some(JsonView::Str(origin)),
        state_document(url, origin, cookies, entries).get("url"@) == Some(JsonView::Str(url)),
        state_document(url, origin, cookies, entries).get("localStorage"@) == Some(
            JsonView::Object(entry_members(entries)),
        ),
        state_document(url, origin, cookies, entries)->Object_0.len() == 4,
        entry_members(entries).len() == entries.len(),
        0 <= i < entries.len() ==> entry_members(entries)[i] == (
            entries[i].0,
            JsonView::Str(entries[i].1),
        ),
{
    reveal_strlit("cookies");
    reveal_strlit("localStorage");
    reveal_strlit("origin");
    reveal_strlit("url");
    assert("cookies"@[0] == 'c');
    assert("localStorage"@[0] == 'l');
    assert("origin"@[0] == 'o');
    assert("url"@[0] == 'u');
    let ms = seq![
        ("cookies"@, JsonView::Array(cookies)),
        ("localStorage"@, JsonView::Object(entry_members(entries))),
        ("origin"@, JsonView::Str(origin)),
        ("url"@, JsonView::Str(url)),
    ];
    law_member_is_first_of_its_name(ms, "cookies"@, 0);
    law_member_is_first_of_its_name(ms, "localStorage"@, 1);
    law_member_is_first_of_its_name(ms, "origin"@, 2);
    law_member_is_first_of_its_name(ms, "url"@, 3);
}

/// The models of entries are their keys and values, in order.
pub proof fn law_entry_models(es: Seq<(String, String)>, i: int)
    ensures
        entry_views(es).len() == es.len(),
        0 <= i < es.len() ==> entry_views(es)[i] == (es[i].0@, es[i].1@),
{
}

} // verus!
